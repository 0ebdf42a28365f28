//! Public market data: the tape, the book and candles.

use crate::decimal;
use crate::decimal::Decimal;
use crate::domain::ids::{Symbol, SymbolView};
use crate::domain::order::Side;
use crate::domain::time::Timestamp;
use vstd::prelude::*;

verus! {

/// A trade printed on the public tape.
#[derive(Debug, PartialEq, Eq)]
pub struct PublicTrade {
    pub symbol: Symbol,
    pub price: Decimal,
    pub qty: Decimal,
    /// Side of the aggressor, i.e. who crossed the spread.
    pub taker_side: Side,
    pub ts: Timestamp,
    /// Venue trade id, used to drop duplicates after a reconnect.
    pub id: u64,
}

/// What a [`PublicTrade`] says.
pub struct TradeView {
    pub symbol: SymbolView,
    pub price: Decimal,
    pub qty: Decimal,
    pub taker_side: Side,
    pub ts: Timestamp,
    pub id: u64,
}

impl View for PublicTrade {
    type V = TradeView;

    open spec fn view(&self) -> TradeView {
        TradeView {
            symbol: self.symbol@,
            price: self.price,
            qty: self.qty,
            taker_side: self.taker_side,
            ts: self.ts,
            id: self.id,
        }
    }
}

impl Clone for PublicTrade {
    fn clone(&self) -> (r: Self)
        ensures
            r == *self,
    {
        PublicTrade {
            symbol: self.symbol.clone(),
            price: self.price,
            qty: self.qty,
            taker_side: self.taker_side,
            ts: self.ts,
            id: self.id,
        }
    }
}

#[derive(Clone, Copy, Debug, PartialEq, Eq)]
pub struct BookLevel {
    pub price: Decimal,
    pub qty: Decimal,
}

/// A local order book plus the sequence bookkeeping needed to know it is still correct.
///
/// Venues publish an initial snapshot and then a stream of deltas. Miss one delta and the book
/// is silently wrong from then on, which is far worse than having no book at all.
/// `last_update_id` exists so that [`OrderBook::apply`] can detect the gap and force a resync.
#[derive(Debug, PartialEq, Eq)]
pub struct OrderBook {
    pub symbol: Option<Symbol>,
    /// Best bid first (descending price).
    pub bids: Vec<BookLevel>,
    /// Best ask first (ascending price).
    pub asks: Vec<BookLevel>,
    /// Venue sequence number of the last applied update.
    pub last_update_id: u64,
    /// Whether a delta has been applied since the book was installed. The first delta only has
    /// to reach over the snapshot; each later one has to chain to the one before it.
    pub synced: bool,
    pub ts: Timestamp,
}

/// What an [`OrderBook`] says.
#[verifier::ext_equal]
pub struct OrderBookView {
    pub symbol: Option<SymbolView>,
    pub bids: Seq<BookLevel>,
    pub asks: Seq<BookLevel>,
    pub last_update_id: u64,
    pub synced: bool,
    pub ts: Timestamp,
}

/// What an optional instrument says.
pub open spec fn symbol_view(symbol: Option<Symbol>) -> Option<SymbolView> {
    match symbol {
        Some(s) => Some(s@),
        None => None,
    }
}

impl View for OrderBook {
    type V = OrderBookView;

    open spec fn view(&self) -> OrderBookView {
        OrderBookView {
            symbol: symbol_view(self.symbol),
            bids: self.bids@,
            asks: self.asks@,
            last_update_id: self.last_update_id,
            synced: self.synced,
            ts: self.ts,
        }
    }
}

/// One incremental book update as published by the venue.
#[derive(Debug, PartialEq, Eq)]
pub struct BookDelta {
    pub symbol: Symbol,
    /// Sequence of the update immediately preceding this one.
    pub prev_update_id: u64,
    pub last_update_id: u64,
    /// Absolute levels, not deltas. A zero quantity removes the level.
    pub bids: Vec<BookLevel>,
    pub asks: Vec<BookLevel>,
    pub ts: Timestamp,
}

/// What a [`BookDelta`] says.
#[verifier::ext_equal]
pub struct BookDeltaView {
    pub symbol: SymbolView,
    pub prev_update_id: u64,
    pub last_update_id: u64,
    pub bids: Seq<BookLevel>,
    pub asks: Seq<BookLevel>,
    pub ts: Timestamp,
}

impl View for BookDelta {
    type V = BookDeltaView;

    open spec fn view(&self) -> BookDeltaView {
        BookDeltaView {
            symbol: self.symbol@,
            prev_update_id: self.prev_update_id,
            last_update_id: self.last_update_id,
            bids: self.bids@,
            asks: self.asks@,
            ts: self.ts,
        }
    }
}

/// A copy of a list of levels.
pub fn copy_levels(levels: &Vec<BookLevel>) -> (r: Vec<BookLevel>)
    ensures
        r@ == levels@,
{
    let mut r: Vec<BookLevel> = Vec::new();
    let mut i: usize = 0;
    while i < levels.len()
        invariant
            i <= levels.len(),
            r@ == levels@.take(i as int),
        decreases levels.len() - i,
    {
        r.push(levels[i]);
        i += 1;
        assert(levels@.take(i as int) =~= levels@.take(i - 1).push(levels@[i - 1]));
    }
    assert(levels@.take(i as int) =~= levels@);
    r
}

impl Clone for BookDelta {
    fn clone(&self) -> (r: Self)
        ensures
            r@ == self@,
    {
        BookDelta {
            symbol: self.symbol.clone(),
            prev_update_id: self.prev_update_id,
            last_update_id: self.last_update_id,
            bids: copy_levels(&self.bids),
            asks: copy_levels(&self.asks),
            ts: self.ts,
        }
    }
}

impl Clone for OrderBook {
    fn clone(&self) -> (r: Self)
        ensures
            r@ == self@,
    {
        let symbol = match &self.symbol {
            Some(s) => Some(s.clone()),
            None => None,
        };
        OrderBook {
            symbol,
            bids: copy_levels(&self.bids),
            asks: copy_levels(&self.asks),
            last_update_id: self.last_update_id,
            synced: self.synced,
            ts: self.ts,
        }
    }
}

impl Default for OrderBook {
    fn default() -> (r: Self)
        ensures
            r@ == empty_book(),
            r.bids@.len() == 0 && r.asks@.len() == 0,
            r.symbol is None && r.last_update_id == 0 && !r.synced && r.ts == Timestamp(0),
    {
        OrderBook {
            symbol: None,
            bids: Vec::new(),
            asks: Vec::new(),
            last_update_id: 0,
            synced: false,
            ts: Timestamp(0),
        }
    }
}

/// A book that holds nothing and follows nothing.
pub open spec fn empty_book() -> OrderBookView {
    OrderBookView {
        symbol: None,
        bids: Seq::empty(),
        asks: Seq::empty(),
        last_update_id: 0,
        synced: false,
        ts: Timestamp(0),
    }
}

/// Outcome of feeding a delta into the book.
#[derive(Clone, Copy, Debug, PartialEq, Eq, Structural)]
pub enum ApplyOutcome {
    /// Applied; the book is current.
    Applied,
    /// Older than what the book holds. Normal right after a snapshot; drop it.
    Stale,
    /// A gap in the venue sequence. The book is now untrustworthy and must be resynced from a
    /// fresh snapshot.
    Gap { expected: u64, got: u64 },
}

/// Whether a price stands in front of another on its side of the book.
pub open spec fn better(a: int, b: int, descending: bool) -> bool {
    if descending {
        a > b
    } else {
        a < b
    }
}

/// Whether a side stands best price first, no price twice.
pub open spec fn sorted(side: Seq<BookLevel>, descending: bool) -> bool {
    forall|i: int, j: int|
        #![trigger side[i], side[j]]
        0 <= i < j < side.len() ==> better(side[i].price@, side[j].price@, descending)
}

/// How many levels of a side stand in front of a price.
pub open spec fn ahead(side: Seq<BookLevel>, price: int, descending: bool) -> int
    decreases side.len(),
{
    if side.len() == 0 {
        0
    } else {
        ahead(side.drop_last(), price, descending) + if better(
            side.last().price@,
            price,
            descending,
        ) {
            1int
        } else {
            0
        }
    }
}

/// Where halving the levels from `low` to `high` ends up for a price, and whether it is there.
///
/// In a sorted side that is behind all the levels that stand in front of the price.
pub open spec fn halved(
    side: Seq<BookLevel>,
    price: int,
    descending: bool,
    low: int,
    high: int,
) -> (bool, int)
    decreases high - low,
{
    let middle = low + (high - low) / 2;
    if low >= high {
        (false, low)
    } else if better(side[middle].price@, price, descending) {
        halved(side, price, descending, middle + 1, high)
    } else if better(price, side[middle].price@, descending) {
        halved(side, price, descending, low, middle)
    } else {
        (true, middle)
    }
}

/// Where a price is found in a side, or would be.
pub open spec fn place(side: Seq<BookLevel>, price: int, descending: bool) -> (bool, int) {
    halved(side, price, descending, 0, side.len() as int)
}

/// A side with one absolute level put in: its quantity replaces what was at that price, and a
/// zero quantity takes the price out.
pub open spec fn set_level(side: Seq<BookLevel>, level: BookLevel, descending: bool) -> Seq<
    BookLevel,
> {
    let (found, at) = place(side, level.price@, descending);
    if found {
        if level.qty@ == 0 {
            side.remove(at)
        } else {
            side.update(at, BookLevel { price: side[at].price, qty: level.qty })
        }
    } else if level.qty@ == 0 {
        side
    } else {
        side.insert(at, level)
    }
}

/// A side with absolute levels put in, one after the other.
pub open spec fn merged(side: Seq<BookLevel>, updates: Seq<BookLevel>, descending: bool) -> Seq<
    BookLevel,
>
    decreases updates.len(),
{
    if updates.len() == 0 {
        side
    } else {
        set_level(merged(side, updates.drop_last(), descending), updates.last(), descending)
    }
}

/// The quantity at a price, zero where the side has no such level.
pub open spec fn qty_at(side: Seq<BookLevel>, price: int) -> int {
    if exists|i: int| 0 <= i < side.len() && #[trigger] side[i].price@ == price {
        side[choose|i: int| 0 <= i < side.len() && #[trigger] side[i].price@ == price].qty@
    } else {
        0
    }
}

impl OrderBookView {
    /// What a delta is to this book: old news, a gap, or the next update.
    ///
    /// The first delta after a snapshot may start before it, as long as it ends after it.
    /// Once a delta has been applied, the next one has to start exactly where it ended. A book
    /// that follows nothing yet takes whatever comes first.
    pub open spec fn outcome(self, delta: BookDeltaView) -> ApplyOutcome {
        let chained = if self.synced {
            delta.prev_update_id == self.last_update_id
        } else {
            delta.prev_update_id <= self.last_update_id
        };
        if delta.last_update_id <= self.last_update_id {
            ApplyOutcome::Stale
        } else if self.last_update_id != 0 && !chained {
            ApplyOutcome::Gap { expected: self.last_update_id, got: delta.prev_update_id }
        } else {
            ApplyOutcome::Applied
        }
    }

    pub open spec fn sorted(self) -> bool {
        sorted(self.bids, true) && sorted(self.asks, false)
    }

    /// The book with a delta put in.
    pub open spec fn with(self, delta: BookDeltaView) -> OrderBookView {
        OrderBookView {
            symbol: self.symbol,
            bids: merged(self.bids, delta.bids, true),
            asks: merged(self.asks, delta.asks, false),
            last_update_id: delta.last_update_id,
            synced: true,
            ts: delta.ts,
        }
    }

    /// The book after it was handed a delta.
    pub open spec fn after(self, delta: BookDeltaView) -> OrderBookView {
        if self.outcome(delta) is Applied {
            self.with(delta)
        } else {
            self
        }
    }
}

/// The number of levels in front of a price is where the price belongs.
proof fn lemma_ahead(side: Seq<BookLevel>, price: int, descending: bool, at: int)
    requires
        0 <= at <= side.len(),
        forall|i: int| 0 <= i < at ==> better((#[trigger] side[i]).price@, price, descending),
        forall|i: int|
            at <= i < side.len() ==> !better((#[trigger] side[i]).price@, price, descending),
    ensures
        ahead(side, price, descending) == at,
    decreases side.len(),
{
    if side.len() > 0 {
        let rest = side.drop_last();
        if at == side.len() {
            lemma_ahead(rest, price, descending, at - 1);
        } else {
            lemma_ahead(rest, price, descending, at);
        }
    }
}

proof fn lemma_halved(
    side: Seq<BookLevel>,
    price: int,
    descending: bool,
    low: int,
    high: int,
)
    requires
        0 <= low <= high <= side.len(),
    ensures
        ({
            let (found, at) = halved(side, price, descending, low, high);
            &&& low <= at <= high
            &&& found ==> at < high && side[at].price@ == price
            &&& sorted(side, descending) && (forall|i: int|
                0 <= i < low ==> better((#[trigger] side[i]).price@, price, descending)) && (
            forall|i: int|
                high <= i < side.len() ==> better(price, (#[trigger] side[i]).price@, descending))
                ==> {
                &&& at == ahead(side, price, descending)
                &&& found == (at < side.len() && side[at].price@ == price)
            }
        }),
    decreases high - low,
{
    let middle = low + (high - low) / 2;
    let ordered = sorted(side, descending) && (forall|i: int|
        0 <= i < low ==> better((#[trigger] side[i]).price@, price, descending)) && (forall|i: int|
        high <= i < side.len() ==> better(price, (#[trigger] side[i]).price@, descending));
    if low >= high {
        if ordered {
            lemma_ahead(side, price, descending, low);
        }
    } else if better(side[middle].price@, price, descending) {
        lemma_halved(side, price, descending, middle + 1, high);
        if ordered {
            assert forall|i: int| 0 <= i < middle + 1 implies better(
                (#[trigger] side[i]).price@,
                price,
                descending,
            ) by {
                if i < middle {
                    assert(better(side[i].price@, side[middle].price@, descending));
                }
            }
        }
    } else if better(price, side[middle].price@, descending) {
        lemma_halved(side, price, descending, low, middle);
        if ordered {
            assert forall|i: int| middle <= i < side.len() implies better(
                price,
                (#[trigger] side[i]).price@,
                descending,
            ) by {
                if i > middle {
                    assert(better(side[middle].price@, side[i].price@, descending));
                }
            }
        }
    } else {
        if ordered {
            assert forall|i: int| 0 <= i < middle implies better(
                (#[trigger] side[i]).price@,
                price,
                descending,
            ) by {
                assert(better(side[i].price@, side[middle].price@, descending));
            }
            assert forall|i: int| middle <= i < side.len() implies !better(
                (#[trigger] side[i]).price@,
                price,
                descending,
            ) by {
                if i > middle {
                    assert(better(side[middle].price@, side[i].price@, descending));
                }
            }
            lemma_ahead(side, price, descending, middle);
        }
    }
}

/// In a sorted side a price belongs behind all the levels that stand in front of it, and it is
/// found exactly when it is there.
pub proof fn place_in_sorted_side(side: Seq<BookLevel>, price: int, descending: bool)
    requires
        sorted(side, descending),
    ensures
        ({
            let (found, at) = place(side, price, descending);
            &&& at == ahead(side, price, descending)
            &&& found == (at < side.len() && side[at].price@ == price)
            &&& 0 <= at <= side.len()
        }),
{
    lemma_halved(side, price, descending, 0, side.len() as int);
}

/// In a sorted side, what stands in front of a price are exactly the first levels.
pub proof fn lemma_ahead_splits(side: Seq<BookLevel>, price: int, descending: bool)
    requires
        sorted(side, descending),
    ensures
        ({
            let at = ahead(side, price, descending);
            &&& 0 <= at <= side.len()
            &&& forall|i: int|
                0 <= i < at ==> better((#[trigger] side[i]).price@, price, descending)
            &&& forall|i: int|
                at <= i < side.len() ==> !better((#[trigger] side[i]).price@, price, descending)
        }),
    decreases side.len(),
{
    if side.len() > 0 {
        let rest = side.drop_last();
        lemma_ahead_splits(rest, price, descending);
        let at = ahead(rest, price, descending);
        assert forall|i: int| 0 <= i < ahead(side, price, descending) implies better(
            (#[trigger] side[i]).price@,
            price,
            descending,
        ) by {
            if i < at {
                assert(side[i] == rest[i]);
            } else {
                assert(better(side.last().price@, price, descending));
                if i < side.len() - 1 {
                    assert(better(side[i].price@, side[side.len() - 1].price@, descending));
                }
            }
        }
        assert forall|i: int| ahead(side, price, descending) <= i < side.len() implies !better(
            (#[trigger] side[i]).price@,
            price,
            descending,
        ) by {
            if i < side.len() - 1 {
                assert(side[i] == rest[i]);
                if better(side.last().price@, price, descending) {
                    assert(better(side[i].price@, side[side.len() - 1].price@, descending));
                }
            }
        }
        if better(side.last().price@, price, descending) {
            if at < rest.len() {
                assert(better(side[at].price@, side[side.len() - 1].price@, descending));
                assert(!better(rest[at].price@, price, descending));
            }
        }
    }
}

/// Putting a level in keeps a side sorted.
pub proof fn set_level_keeps_order(side: Seq<BookLevel>, level: BookLevel, descending: bool)
    requires
        sorted(side, descending),
    ensures
        sorted(set_level(side, level, descending), descending),
{
    lemma_ahead_splits(side, level.price@, descending);
    place_in_sorted_side(side, level.price@, descending);
    let at = ahead(side, level.price@, descending);
    let new = set_level(side, level, descending);
    let found = at < side.len() && side[at].price@ == level.price@;
    assert forall|i: int, j: int|
        #![trigger new[i], new[j]]
        0 <= i < j < new.len() implies better(new[i].price@, new[j].price@, descending) by {
        if found && level.qty@ == 0 {
            let a = if i < at {
                i
            } else {
                i + 1
            };
            let b = if j < at {
                j
            } else {
                j + 1
            };
            assert(better(side[a].price@, side[b].price@, descending));
        } else if found || level.qty@ == 0 {
            assert(better(side[i].price@, side[j].price@, descending));
        } else if j == at {
            assert(better(side[i].price@, level.price@, descending));
        } else if i == at {
            assert(new[j] == side[j - 1]);
            assert(!better(side[j - 1].price@, level.price@, descending));
            if j - 1 > at {
                assert(better(side[at].price@, side[j - 1].price@, descending));
                assert(!better(side[at].price@, level.price@, descending));
            }
        } else {
            let a = if i < at {
                i
            } else {
                i - 1
            };
            let b = if j < at {
                j
            } else {
                j - 1
            };
            assert(better(side[a].price@, side[b].price@, descending));
        }
    }
}

/// Putting levels in keeps a side sorted.
pub proof fn merged_keeps_order(side: Seq<BookLevel>, updates: Seq<BookLevel>, descending: bool)
    requires
        sorted(side, descending),
    ensures
        sorted(merged(side, updates, descending), descending),
    decreases updates.len(),
{
    if updates.len() > 0 {
        merged_keeps_order(side, updates.drop_last(), descending);
        set_level_keeps_order(
            merged(side, updates.drop_last(), descending),
            updates.last(),
            descending,
        );
    }
}

/// A book that is sorted stays sorted, whatever it is handed.
pub proof fn book_stays_sorted(book: OrderBookView, delta: BookDeltaView)
    requires
        book.sorted(),
    ensures
        book.after(delta).sorted(),
{
    merged_keeps_order(book.bids, delta.bids, true);
    merged_keeps_order(book.asks, delta.asks, false);
}

/// In a sorted side the quantity at a price is that of the level there.
proof fn lemma_qty_at(side: Seq<BookLevel>, descending: bool, i: int)
    requires
        sorted(side, descending),
        0 <= i < side.len(),
    ensures
        qty_at(side, side[i].price@) == side[i].qty@,
{
    let p = side[i].price@;
    let k = choose|k: int| 0 <= k < side.len() && #[trigger] side[k].price@ == p;
    if k < i {
        assert(better(side[k].price@, side[i].price@, descending));
    } else if i < k {
        assert(better(side[i].price@, side[k].price@, descending));
    }
}

/// A level put in is found at its price, and no other price is touched.
pub proof fn set_level_sets_one_price(
    side: Seq<BookLevel>,
    level: BookLevel,
    descending: bool,
    price: int,
)
    requires
        sorted(side, descending),
    ensures
        qty_at(set_level(side, level, descending), price) == if price == level.price@ {
            level.qty@
        } else {
            qty_at(side, price)
        },
{
    lemma_ahead_splits(side, level.price@, descending);
    place_in_sorted_side(side, level.price@, descending);
    set_level_keeps_order(side, level, descending);
    let at = ahead(side, level.price@, descending);
    let new = set_level(side, level, descending);
    let found = at < side.len() && side[at].price@ == level.price@;
    assert forall|i: int| 0 <= i < side.len() && i != at implies (#[trigger] side[i]).price@
        != level.price@ by {
        if found {
            if i < at {
                assert(better(side[i].price@, side[at].price@, descending));
            } else {
                assert(better(side[at].price@, side[i].price@, descending));
            }
        } else if i > at {
            assert(better(side[at].price@, side[i].price@, descending));
            assert(!better(side[at].price@, level.price@, descending));
        }
    }
    if price == level.price@ {
        if level.qty@ != 0 {
            assert(new[at].price@ == price);
            lemma_qty_at(new, descending, at);
        } else {
            assert forall|i: int| 0 <= i < new.len() implies (#[trigger] new[i]).price@ != price by {
                if found {
                    let j = if i < at {
                        i
                    } else {
                        i + 1
                    };
                    assert(new[i] == side[j]);
                } else {
                    assert(new[i] == side[i]);
                }
            }
        }
    } else {
        if exists|i: int| 0 <= i < side.len() && #[trigger] side[i].price@ == price {
            let i = choose|i: int| 0 <= i < side.len() && #[trigger] side[i].price@ == price;
            lemma_qty_at(side, descending, i);
            let j = if found && level.qty@ == 0 {
                if i < at {
                    i
                } else {
                    i - 1
                }
            } else if found || level.qty@ == 0 {
                i
            } else if i < at {
                i
            } else {
                i + 1
            };
            assert(new[j].price@ == price);
            assert(new[j].qty@ == side[i].qty@);
            lemma_qty_at(new, descending, j);
        } else {
            assert forall|i: int| 0 <= i < new.len() implies (#[trigger] new[i]).price@ != price by {
                if i != at || (found && level.qty@ == 0) || (!found && level.qty@ == 0) {
                    let j = if found && level.qty@ == 0 {
                        if i < at {
                            i
                        } else {
                            i + 1
                        }
                    } else if found || level.qty@ == 0 {
                        i
                    } else if i < at {
                        i
                    } else {
                        i - 1
                    };
                    assert(new[i] == side[j]);
                }
            }
        }
    }
}

/// Levels are absolute: a price that a delta does not name keeps its quantity, and one that it
/// does name has the quantity that was named last.
pub proof fn merged_is_absolute(
    side: Seq<BookLevel>,
    updates: Seq<BookLevel>,
    descending: bool,
    price: int,
)
    requires
        sorted(side, descending),
    ensures
        (forall|i: int| 0 <= i < updates.len() ==> (#[trigger] updates[i]).price@ != price)
            ==> qty_at(merged(side, updates, descending), price) == qty_at(side, price),
        forall|i: int|
            0 <= i < updates.len() && (#[trigger] updates[i]).price@ == price && (forall|j: int|
                i < j < updates.len() ==> (#[trigger] updates[j]).price@ != price) ==> qty_at(
                merged(side, updates, descending),
                price,
            ) == updates[i].qty@,
    decreases updates.len(),
{
    if updates.len() > 0 {
        let rest = updates.drop_last();
        let last = updates.last();
        merged_is_absolute(side, rest, descending, price);
        merged_keeps_order(side, rest, descending);
        set_level_sets_one_price(merged(side, rest, descending), last, descending, price);
        assert(updates[updates.len() - 1] == last);
        if forall|i: int| 0 <= i < updates.len() ==> (#[trigger] updates[i]).price@ != price {
            assert forall|i: int| 0 <= i < rest.len() implies (#[trigger] rest[i]).price@
                != price by {
                assert(rest[i] == updates[i]);
            }
        }
        assert forall|i: int|
            0 <= i < updates.len() && (#[trigger] updates[i]).price@ == price && (forall|j: int|
                i < j < updates.len() ==> (#[trigger] updates[j]).price@ != price) implies qty_at(
            merged(side, updates, descending),
            price,
        ) == updates[i].qty@ by {
            if i < updates.len() - 1 {
                assert(rest[i] == updates[i]);
                assert forall|j: int| i < j < rest.len() implies (#[trigger] rest[j]).price@
                    != price by {
                    assert(rest[j] == updates[j]);
                }
            }
        }
    }
}

/// Handing a book the same delta twice changes nothing the second time: it is stale by then.
pub proof fn replay_is_stale(book: OrderBookView, delta: BookDeltaView)
    ensures
        book.outcome(delta) is Applied ==> book.after(delta).outcome(delta) is Stale,
        book.after(delta).after(delta) == book.after(delta),
{
}

/// A book that has joined its stream takes the next update and no other: one that starts where the
/// book ends. Any other newer update shows a hole in the stream; both ids are told, and the book
/// stays as it was.
pub proof fn a_joined_book_takes_only_the_next_update(book: OrderBookView, delta: BookDeltaView)
    requires
        book.synced,
        book.last_update_id != 0,
        delta.last_update_id > book.last_update_id,
    ensures
        book.outcome(delta) == ApplyOutcome::Applied <==> delta.prev_update_id
            == book.last_update_id,
        delta.prev_update_id != book.last_update_id ==> {
            &&& book.outcome(delta) == (ApplyOutcome::Gap {
                expected: book.last_update_id,
                got: delta.prev_update_id,
            })
            &&& book.after(delta) == book
        },
{
}

/// A book that has not joined its stream yet takes an update that reaches over it: one that starts
/// no later than the book ends and ends after it. One that starts later shows a hole.
pub proof fn a_snapshot_takes_what_reaches_over_it(book: OrderBookView, delta: BookDeltaView)
    requires
        !book.synced,
        book.last_update_id != 0,
        delta.last_update_id > book.last_update_id,
    ensures
        book.outcome(delta) == ApplyOutcome::Applied <==> delta.prev_update_id
            <= book.last_update_id,
        delta.prev_update_id > book.last_update_id ==> {
            &&& book.outcome(delta) == (ApplyOutcome::Gap {
                expected: book.last_update_id,
                got: delta.prev_update_id,
            })
            &&& book.after(delta) == book
        },
{
}

/// An update that ends no later than the book is old news, whatever it says, and changes nothing;
/// and only such an update is.
pub proof fn old_news_changes_nothing(book: OrderBookView, delta: BookDeltaView)
    ensures
        book.outcome(delta) == ApplyOutcome::Stale <==> delta.last_update_id
            <= book.last_update_id,
        delta.last_update_id <= book.last_update_id ==> book.after(delta) == book,
        book.last_update_id == 0 && delta.last_update_id > 0 ==> book.outcome(delta)
            == ApplyOutcome::Applied,
{
}

/// Whether updates name a price.
pub open spec fn names(updates: Seq<BookLevel>, price: int) -> bool {
    exists|i: int| 0 <= i < updates.len() && (#[trigger] updates[i]).price@ == price
}

/// An update that is taken leaves the book at its end, joined, and with the quantities that it
/// names: on either side a price that it names on that side has the quantity that was named last,
/// and every other price has the quantity that it had.
pub proof fn an_update_sets_what_it_names(book: OrderBookView, delta: BookDeltaView, price: int)
    requires
        book.sorted(),
        book.outcome(delta) is Applied,
    ensures
        ({
            let after = book.after(delta);
            &&& after.last_update_id == delta.last_update_id
            &&& after.ts == delta.ts
            &&& after.synced
            &&& after.symbol == book.symbol
            &&& !names(delta.bids, price) ==> qty_at(after.bids, price) == qty_at(book.bids, price)
            &&& !names(delta.asks, price) ==> qty_at(after.asks, price) == qty_at(book.asks, price)
            &&& forall|i: int|
                0 <= i < delta.bids.len() && (#[trigger] delta.bids[i]).price@ == price && !names(
                    delta.bids.skip(i + 1),
                    price,
                ) ==> qty_at(after.bids, price) == delta.bids[i].qty@
            &&& forall|i: int|
                0 <= i < delta.asks.len() && (#[trigger] delta.asks[i]).price@ == price && !names(
                    delta.asks.skip(i + 1),
                    price,
                ) ==> qty_at(after.asks, price) == delta.asks[i].qty@
        }),
{
    merged_is_absolute(book.bids, delta.bids, true, price);
    merged_is_absolute(book.asks, delta.asks, false, price);
    lemma_named_last(delta.bids, price);
    lemma_named_last(delta.asks, price);
}

proof fn lemma_named_last(updates: Seq<BookLevel>, price: int)
    ensures
        forall|i: int|
            0 <= i < updates.len() && (#[trigger] updates[i]).price@ == price && !names(
                updates.skip(i + 1),
                price,
            ) ==> (forall|j: int|
                i < j < updates.len() ==> (#[trigger] updates[j]).price@ != price),
{
    assert forall|i: int|
        0 <= i < updates.len() && (#[trigger] updates[i]).price@ == price && !names(
            updates.skip(i + 1),
            price,
        ) implies (forall|j: int|
        i < j < updates.len() ==> (#[trigger] updates[j]).price@ != price) by {
        let rest = updates.skip(i + 1);
        assert forall|j: int| i < j < updates.len() implies (#[trigger] updates[j]).price@
            != price by {
            assert(rest[j - i - 1] == updates[j]);
        }
    }
}

/// Whether every level of a side has something in it.
pub open spec fn filled(side: Seq<BookLevel>) -> bool {
    forall|i: int| 0 <= i < side.len() ==> (#[trigger] side[i]).qty@ != 0
}

/// A level with nothing left in it is not kept: a zero quantity takes the price out.
pub proof fn no_empty_level_is_kept(book: OrderBookView, delta: BookDeltaView)
    requires
        filled(book.bids),
        filled(book.asks),
    ensures
        filled(book.after(delta).bids),
        filled(book.after(delta).asks),
{
    lemma_merged_filled(book.bids, delta.bids, true);
    lemma_merged_filled(book.asks, delta.asks, false);
}

proof fn lemma_merged_filled(side: Seq<BookLevel>, updates: Seq<BookLevel>, descending: bool)
    requires
        filled(side),
    ensures
        filled(merged(side, updates, descending)),
    decreases updates.len(),
{
    if updates.len() > 0 {
        let rest = merged(side, updates.drop_last(), descending);
        let level = updates.last();
        lemma_merged_filled(side, updates.drop_last(), descending);
        lemma_halved(rest, level.price@, descending, 0, rest.len() as int);
        let (found, at) = place(rest, level.price@, descending);
        let new = set_level(rest, level, descending);
        assert forall|i: int| 0 <= i < new.len() implies (#[trigger] new[i]).qty@ != 0 by {
            let j = if found && level.qty@ == 0 {
                if i < at {
                    i
                } else {
                    i + 1
                }
            } else if found || level.qty@ == 0 || i < at {
                i
            } else {
                i - 1
            };
            if !(i == at && level.qty@ != 0) {
                assert(new[i].qty == rest[j].qty);
            }
        }
    }
}

/// In a sorted book the best bid is the highest and the best ask the lowest.
pub proof fn the_best_is_in_front(book: OrderBookView, i: int)
    requires
        book.sorted(),
    ensures
        0 <= i < book.bids.len() ==> best(book.bids) is Some && best(book.bids)->0.price@
            >= book.bids[i].price@ && book.bids.contains(best(book.bids)->0),
        0 <= i < book.asks.len() ==> best(book.asks) is Some && best(book.asks)->0.price@
            <= book.asks[i].price@ && book.asks.contains(best(book.asks)->0),
{
    if 0 < i < book.bids.len() {
        assert(better(book.bids[0].price@, book.bids[i].price@, true));
    }
    if 0 < i < book.asks.len() {
        assert(better(book.asks[0].price@, book.asks[i].price@, false));
    }
    if book.bids.len() > 0 {
        assert(book.bids[0] == best(book.bids)->0);
    }
    if book.asks.len() > 0 {
        assert(book.asks[0] == best(book.asks)->0);
    }
}

/// The best level of a side.
pub open spec fn best(side: Seq<BookLevel>) -> Option<BookLevel> {
    if side.len() == 0 {
        None
    } else {
        Some(side[0])
    }
}

fn first(side: &Vec<BookLevel>) -> (r: Option<BookLevel>)
    ensures
        r == best(side@),
{
    if side.len() == 0 {
        None
    } else {
        Some(side[0])
    }
}

impl OrderBook {
    pub fn best_bid(&self) -> (r: Option<BookLevel>)
        ensures
            r == best(self.bids@),
    {
        first(&self.bids)
    }

    pub fn best_ask(&self) -> (r: Option<BookLevel>)
        ensures
            r == best(self.asks@),
    {
        first(&self.asks)
    }

    /// Half way between the best bid and the best ask. It takes both sides.
    pub fn mid(&self) -> (r: Option<Decimal>)
        requires
            self.bids@.len() > 0 && self.asks@.len() > 0 ==> decimal::in_range(
                self.bids@[0].price@ + self.asks@[0].price@,
            ),
        ensures
            match r {
                Some(d) => {
                    let b = self.bids@[0].price;
                    let a = self.asks@[0].price;
                    &&& self.bids@.len() > 0 && self.asks@.len() > 0
                    &&& decimal::sum_of(b.parts(), a.parts()) matches Some(s)
                        && decimal::quotient_of(s, (2int, 0int)) == Some(d.parts())
                    &&& decimal::sum_is_exact(b.parts(), a.parts()) ==> forall|v: int|
                        #![trigger decimal::representable(v)]
                        decimal::representable(v) && 2 * v == b@ + a@ ==> d@ == v
                },
                None => self.bids@.len() == 0 || self.asks@.len() == 0,
            },
    {
        match (self.best_bid(), self.best_ask()) {
            (Some(b), Some(a)) => {
                let sum = b.price.plus(a.price);
                let two = Decimal::two();
                proof {
                    let u = decimal::one();
                    decimal::lemma_pow10_positive(28);
                    decimal::lemma_representable_in_range(sum@);
                    assert(two@ == 2 * u);
                    assert(decimal::MAX_MANTISSA * decimal::abs(2 * u) == 2
                        * decimal::max_units()) by (nonlinear_arith)
                        requires
                            u == decimal::one(),
                            u >= 1,
                    ;
                    assert forall|v: int|
                        #![trigger decimal::representable(v)]
                        2 * v == sum@ implies v * two@ == sum@ * u by {
                        assert(v * (2 * u) == (2 * v) * u) by (nonlinear_arith);
                    }
                }
                Some(sum.over(two))
            },
            _ => None,
        }
    }

    /// What lies between the best bid and the best ask. It takes both sides.
    pub fn spread(&self) -> (r: Option<Decimal>)
        requires
            self.bids@.len() > 0 && self.asks@.len() > 0 ==> decimal::in_range(
                self.asks@[0].price@ - self.bids@[0].price@,
            ),
        ensures
            match r {
                Some(d) => {
                    let b = self.bids@[0].price;
                    let a = self.asks@[0].price;
                    &&& self.bids@.len() > 0 && self.asks@.len() > 0
                    &&& decimal::difference_of(a.parts(), b.parts()) == Some(d.parts())
                    &&& decimal::sum_is_exact(a.parts(), decimal::negated(b.parts())) ==> d@ == a@
                        - b@
                },
                None => self.bids@.len() == 0 || self.asks@.len() == 0,
            },
    {
        match (self.best_bid(), self.best_ask()) {
            (Some(b), Some(a)) => Some(a.price.minus(b.price)),
            _ => None,
        }
    }

    /// Apply an incremental update, reporting staleness and sequence gaps rather than silently
    /// corrupting the book.
    pub fn apply(&mut self, delta: &BookDelta) -> (r: ApplyOutcome)
        ensures
            r == old(self)@.outcome(delta@),
            final(self)@ == old(self)@.after(delta@),
            final(self).symbol == old(self).symbol,
            delta.last_update_id <= old(self).last_update_id ==> r == ApplyOutcome::Stale,
            old(self).synced && 0 < old(self).last_update_id < delta.last_update_id ==> r == if (
            delta.prev_update_id == old(self).last_update_id) {
                ApplyOutcome::Applied
            } else {
                ApplyOutcome::Gap {
                    expected: old(self).last_update_id,
                    got: delta.prev_update_id,
                }
            },
            !old(self).synced && 0 < old(self).last_update_id < delta.last_update_id ==> r == if (
            delta.prev_update_id <= old(self).last_update_id) {
                ApplyOutcome::Applied
            } else {
                ApplyOutcome::Gap {
                    expected: old(self).last_update_id,
                    got: delta.prev_update_id,
                }
            },
            old(self).last_update_id == 0 < delta.last_update_id ==> r == ApplyOutcome::Applied,
            r == ApplyOutcome::Applied ==> final(self).last_update_id == delta.last_update_id
                && final(self).synced && final(self).ts == delta.ts,
            r != ApplyOutcome::Applied ==> final(self)@ == old(self)@,
    {
        if delta.last_update_id <= self.last_update_id {
            return ApplyOutcome::Stale;
        }
        if self.last_update_id != 0 {
            let chained = if self.synced {
                delta.prev_update_id == self.last_update_id
            } else {
                delta.prev_update_id <= self.last_update_id
            };
            if !chained {
                return ApplyOutcome::Gap {
                    expected: self.last_update_id,
                    got: delta.prev_update_id,
                };
            }
        }
        apply_side(&mut self.bids, &delta.bids, true);
        apply_side(&mut self.asks, &delta.asks, false);
        self.last_update_id = delta.last_update_id;
        self.ts = delta.ts;
        self.synced = true;
        ApplyOutcome::Applied
    }
}

/// Whether `a` stands in front of `b`.
fn stands_before(a: Decimal, b: Decimal, descending: bool) -> (r: bool)
    ensures
        r == better(a@, b@, descending),
{
    if descending {
        b.less(a)
    } else {
        a.less(b)
    }
}

/// Where a price is, or where it belongs, by halving.
fn find(side: &Vec<BookLevel>, price: Decimal, descending: bool) -> (r: (bool, usize))
    ensures
        (r.0, r.1 as int) == place(side@, price@, descending),
        r.1 <= side@.len(),
        r.0 ==> r.1 < side@.len(),
{
    let mut low: usize = 0;
    let mut high: usize = side.len();
    proof {
        lemma_halved(side@, price@, descending, 0, side@.len() as int);
    }
    while low < high
        invariant
            low <= high <= side@.len(),
            halved(side@, price@, descending, low as int, high as int) == place(
                side@,
                price@,
                descending,
            ),
        ensures
            low == high,
            low <= side@.len(),
            (false, low as int) == place(side@, price@, descending),
        decreases high - low,
    {
        let middle: usize = low + (high - low) / 2;
        if stands_before(side[middle].price, price, descending) {
            low = middle + 1;
        } else if stands_before(price, side[middle].price, descending) {
            high = middle;
        } else {
            return (true, middle);
        }
    }
    (false, low)
}

/// Merge absolute levels into one side, dropping levels the venue zeroed out.
fn apply_side(side: &mut Vec<BookLevel>, updates: &Vec<BookLevel>, descending: bool)
    ensures
        final(side)@ == merged(old(side)@, updates@, descending),
{
    let ghost start = side@;
    let mut i: usize = 0;
    proof {
        assert(updates@.take(0) =~= Seq::<BookLevel>::empty());
    }
    while i < updates.len()
        invariant
            i <= updates@.len(),
            start == old(side)@,
            side@ == merged(start, updates@.take(i as int), descending),
        decreases updates@.len() - i,
    {
        let update = updates[i];
        assert(updates@.take(i + 1).drop_last() =~= updates@.take(i as int));
        let (found, at) = find(side, update.price, descending);
        if found {
            if update.qty.is_zero() {
                side.remove(at);
            } else {
                let price = side[at].price;
                side.set(at, BookLevel { price, qty: update.qty });
            }
        } else if !update.qty.is_zero() {
            side.insert(at, update);
        }
        i += 1;
    }
    assert(updates@.take(i as int) =~= updates@);
}

/// A finished or forming candle.
#[derive(Debug, PartialEq, Eq)]
pub struct Candle {
    pub symbol: Symbol,
    /// Candle open time.
    pub open_time: Timestamp,
    pub interval_ms: i64,
    pub open: Decimal,
    pub high: Decimal,
    pub low: Decimal,
    pub close: Decimal,
    pub volume: Decimal,
    /// False while the candle is still forming.
    pub closed: bool,
}

impl Clone for Candle {
    fn clone(&self) -> (r: Self)
        ensures
            r == *self,
    {
        Candle {
            symbol: self.symbol.clone(),
            open_time: self.open_time,
            interval_ms: self.interval_ms,
            open: self.open,
            high: self.high,
            low: self.low,
            close: self.close,
            volume: self.volume,
            closed: self.closed,
        }
    }
}

} // verus!

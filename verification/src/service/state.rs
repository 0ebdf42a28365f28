//! The core's shared read-model.
//!
//! A broadcast only reaches whoever is already listening. Book snapshots are published once, when
//! the book is built, so a terminal that connects later would receive updates for a book it does
//! not have. So the core keeps the current books itself. A session gets the state on subscribe
//! and the stream thereafter. Updates already queued for that session are older than the state
//! it was handed, and [`OrderBook::apply`] discards them as stale.

use crate::domain::event::{Event, EventView, MarketEvent, Payload, PayloadView};
use crate::domain::ids::SymbolView;
use crate::domain::market::{
    ApplyOutcome, BookDeltaView, Candle, OrderBook, OrderBookView, PublicTrade,
};
use crate::exchange::error::Subscription;
use crate::marketdata::ring;
use crate::table;
use crate::table::Table;
use std::collections::VecDeque;
use vstd::prelude::*;

verus! {

/// Candles retained per instrument for late subscribers.
///
/// A terminal that connects an hour in must get a chart with history on it, not a single bar
/// that grows from the right edge.
pub const HISTORY: usize = 600;

/// Prints retained per instrument.
///
/// The chart draws a mark per trade, so a terminal joining late needs the prints themselves, not
/// just the bars they were folded into.
pub const TAPE_HISTORY: usize = 4_000;

pub struct MarketState {
    books: Table<OrderBook>,
    candles: Table<VecDeque<Candle>>,
    tape: Table<VecDeque<PublicTrade>>,
}

/// What a [`MarketState`] holds, by the key of the instrument.
#[verifier::ext_equal]
pub struct MarketStateView {
    pub books: Map<Seq<char>, OrderBookView>,
    pub candles: Map<Seq<char>, Seq<Candle>>,
    pub tape: Map<Seq<char>, Seq<PublicTrade>>,
}

impl View for MarketState {
    type V = MarketStateView;

    closed spec fn view(&self) -> MarketStateView {
        MarketStateView {
            books: self.books@.map_values(|b: OrderBook| b@),
            candles: self.candles@.map_values(|s: VecDeque<Candle>| s@),
            tape: self.tape@.map_values(|s: VecDeque<PublicTrade>| s@),
        }
    }
}

/// The items kept under a key, none where there is no such key.
pub open spec fn kept<T>(series: Map<Seq<char>, Seq<T>>, key: Seq<char>) -> Seq<T> {
    if series.contains_key(key) {
        series[key]
    } else {
        Seq::empty()
    }
}

/// A series with a bar put in: one of the same bucket replaces the last bar, an older one is
/// dropped, a newer one is appended.
pub open spec fn with_bar(series: Seq<Candle>, bar: Candle) -> Seq<Candle> {
    if series.len() > 0 && series.last().open_time == bar.open_time {
        series.drop_last().push(bar)
    } else if series.len() > 0 && series.last().open_time.0 > bar.open_time.0 {
        series
    } else {
        ring::newest(series.push(bar), HISTORY as int)
    }
}

impl MarketStateView {
    /// The books after an update. One that does not chain tears the book, and a torn book is
    /// dropped rather than served; the next snapshot repairs it.
    pub open spec fn books_after(self, delta: BookDeltaView) -> Map<Seq<char>, OrderBookView> {
        let key = delta.symbol.key();
        if !self.books.contains_key(key) {
            self.books
        } else if self.books[key].outcome(delta) is Gap {
            self.books.remove(key)
        } else {
            self.books.insert(key, self.books[key].after(delta))
        }
    }

    /// The read-model after an event.
    pub open spec fn after(self, event: EventView) -> MarketStateView {
        match event.payload {
            PayloadView::Trade(t) => MarketStateView {
                tape: self.tape.insert(
                    t.symbol@.key(),
                    ring::newest(kept(self.tape, t.symbol@.key()).push(t), TAPE_HISTORY as int),
                ),
                ..self
            },
            PayloadView::Candle(c) => MarketStateView {
                candles: self.candles.insert(
                    c.symbol@.key(),
                    with_bar(kept(self.candles, c.symbol@.key()), c),
                ),
                ..self
            },
            PayloadView::BookSnapshot(b) => match b.symbol {
                Some(s) => MarketStateView { books: self.books.insert(s.key(), b), ..self },
                None => self,
            },
            PayloadView::BookDelta(d) => MarketStateView { books: self.books_after(d), ..self },
            _ => self,
        }
    }

    /// The books served for keys, in their order: only those that have joined their stream.
    pub open spec fn served(self, keys: Seq<Seq<char>>) -> Seq<OrderBookView>
        decreases keys.len(),
    {
        if keys.len() == 0 {
            Seq::empty()
        } else {
            let rest = self.served(keys.drop_last());
            let key = keys.last();
            if self.books.contains_key(key) && self.books[key].synced {
                rest.push(self.books[key])
            } else {
                rest
            }
        }
    }
}

/// The keys of the instruments that subscriptions concern, in text order, each once.
pub open spec fn wanted(subs: Seq<Subscription>) -> Seq<Seq<char>>
    decreases subs.len(),
{
    if subs.len() == 0 {
        Seq::empty()
    } else {
        table::placed(wanted(subs.drop_last()), subs.last().concerns()@.key())
    }
}

/// However often an instrument is asked for, it is served once.
pub proof fn each_instrument_is_served_once(subs: Seq<Subscription>)
    ensures
        table::ascending(wanted(subs)),
        forall|k: Seq<char>| #[trigger]
            wanted(subs).contains(k) <==> exists|i: int|
                0 <= i < subs.len() && #[trigger] subs[i].concerns()@.key() == k,
    decreases subs.len(),
{
    if subs.len() > 0 {
        let rest = subs.drop_last();
        let key = subs.last().concerns()@.key();
        each_instrument_is_served_once(rest);
        table::lemma_placed(wanted(rest), key);
        assert forall|k: Seq<char>| #[trigger] wanted(subs).contains(k) <==> exists|i: int|
            0 <= i < subs.len() && #[trigger] subs[i].concerns()@.key() == k by {
            if wanted(rest).contains(k) {
                let i = choose|i: int|
                    0 <= i < rest.len() && #[trigger] rest[i].concerns()@.key() == k;
                assert(subs[i].concerns()@.key() == k);
            }
            if k == key {
                assert(subs[subs.len() - 1].concerns()@.key() == k);
            }
            if exists|i: int| 0 <= i < subs.len() && #[trigger] subs[i].concerns()@.key() == k {
                let i = choose|i: int|
                    0 <= i < subs.len() && #[trigger] subs[i].concerns()@.key() == k;
                if i < rest.len() {
                    assert(rest[i].concerns()@.key() == k);
                }
            }
        }
    }
}

/// What is kept under keys, one after the other.
pub open spec fn gathered<T>(series: Map<Seq<char>, Seq<T>>, keys: Seq<Seq<char>>) -> Seq<T>
    decreases keys.len(),
{
    if keys.len() == 0 {
        Seq::empty()
    } else {
        gathered(series, keys.drop_last()) + kept(series, keys.last())
    }
}

/// A book that has joined its stream is served to whoever asks for its instrument.
pub proof fn a_live_book_is_served(state: MarketStateView, subs: Seq<Subscription>, i: int)
    requires
        0 <= i < subs.len(),
        state.books.contains_key(subs[i].concerns()@.key()),
        state.books[subs[i].concerns()@.key()].synced,
    ensures
        state.served(wanted(subs)).contains(state.books[subs[i].concerns()@.key()]),
{
    each_instrument_is_served_once(subs);
    assert(wanted(subs).contains(subs[i].concerns()@.key()));
    lemma_served(state, wanted(subs), subs[i].concerns()@.key());
}

proof fn lemma_served(state: MarketStateView, keys: Seq<Seq<char>>, key: Seq<char>)
    requires
        keys.contains(key),
        state.books.contains_key(key),
        state.books[key].synced,
    ensures
        state.served(keys).contains(state.books[key]),
    decreases keys.len(),
{
    let served = state.served(keys);
    let rest = state.served(keys.drop_last());
    if keys.last() == key {
        assert(served[served.len() - 1] == state.books[key]);
    } else {
        let j = keys.index_of(key);
        assert(keys.drop_last()[j] == key);
        lemma_served(state, keys.drop_last(), key);
        let at = rest.index_of(state.books[key]);
        assert(served[at] == state.books[key]);
    }
}

/// An update that a book has already taken in changes nothing when it comes again: a terminal
/// that was handed the book and then receives older updates still holds the same book.
pub proof fn queued_updates_are_discarded(book: OrderBookView, delta: BookDeltaView)
    requires
        delta.last_update_id <= book.last_update_id,
    ensures
        book.outcome(delta) is Stale,
        book.after(delta) == book,
{
}

/// Keeping the books of the read-model in step: an update that chains onto the book that is held
/// leaves the read-model with exactly the book that its sender has.
pub proof fn read_model_follows_the_stream(
    state: MarketStateView,
    event: EventView,
    delta: BookDeltaView,
)
    requires
        event.payload == PayloadView::BookDelta(delta),
        state.books.contains_key(delta.symbol.key()),
        state.books[delta.symbol.key()].outcome(delta) is Applied,
    ensures
        state.after(event).books[delta.symbol.key()] == state.books[delta.symbol.key()].with(delta),
        state.after(event).candles == state.candles,
        state.after(event).tape == state.tape,
{
}

/// A torn book is gone, and nothing is served for it until the next snapshot.
pub proof fn torn_book_is_dropped(state: MarketStateView, event: EventView, delta: BookDeltaView)
    requires
        event.payload == PayloadView::BookDelta(delta),
        state.books.contains_key(delta.symbol.key()),
        state.books[delta.symbol.key()].outcome(delta) is Gap,
    ensures
        state.after(event).served(seq![delta.symbol.key()]).len() == 0,
{
    let keys = seq![delta.symbol.key()];
    assert(keys.drop_last() =~= Seq::<Seq<char>>::empty());
    reveal_with_fuel(MarketStateView::served, 2);
}

/// Private events and connection events leave the read-model alone.
pub proof fn only_market_events_count(state: MarketStateView, event: EventView)
    requires
        match event.payload {
            PayloadView::Account(_) => true,
            PayloadView::Connecting => true,
            PayloadView::Ready => true,
            PayloadView::Resyncing(_) => true,
            PayloadView::Disconnected(_) => true,
            _ => false,
        },
    ensures
        state.after(event) == state,
{
}

/// The read-model after events, in order.
pub open spec fn seen(state: MarketStateView, events: Seq<EventView>) -> MarketStateView
    decreases events.len(),
{
    if events.len() == 0 {
        state
    } else {
        seen(state, events.drop_last()).after(events.last())
    }
}

/// The prints of an instrument among events, in order.
pub open spec fn prints(events: Seq<EventView>, key: Seq<char>) -> Seq<PublicTrade>
    decreases events.len(),
{
    if events.len() == 0 {
        Seq::empty()
    } else {
        let rest = prints(events.drop_last(), key);
        match events.last().payload {
            PayloadView::Trade(t) => if t.symbol@.key() == key {
                rest.push(t)
            } else {
                rest
            },
            _ => rest,
        }
    }
}

/// Whatever is published, the tape of an instrument is its last four thousand prints, all of them
/// while there are no more, oldest first.
pub proof fn the_tape_is_the_last_prints(
    state: MarketStateView,
    events: Seq<EventView>,
    key: Seq<char>,
)
    requires
        state.tape == Map::<Seq<char>, Seq<PublicTrade>>::empty(),
    ensures
        ({
            let tape = kept(seen(state, events).tape, key);
            let all = prints(events, key);
            tape == if all.len() > 4_000 {
                all.skip(all.len() - 4_000)
            } else {
                all
            }
        }),
    decreases events.len(),
{
    if events.len() > 0 {
        the_tape_is_the_last_prints(state, events.drop_last(), key);
        if let PayloadView::Trade(t) = events.last().payload {
            ring::keeping_as_one_goes(prints(events.drop_last(), key), t, 4_000);
        }
    }
}

/// A bar takes the place of the last one where both are of one bucket, comes after it where it is
/// newer, and is dropped where it is older. No other bar changes; beyond six hundred the oldest
/// goes.
pub proof fn a_bar_finds_its_place(series: Seq<Candle>, bar: Candle)
    requires
        0 < series.len() <= 600,
    ensures
        ({
            let later = with_bar(series, bar);
            let n = series.len() as int;
            &&& bar.open_time.0 == series.last().open_time.0 ==> {
                &&& later.len() == n
                &&& later.last() == bar
                &&& forall|i: int| 0 <= i < n - 1 ==> later[i] == #[trigger] series[i]
            }
            &&& bar.open_time.0 < series.last().open_time.0 ==> later == series
            &&& bar.open_time.0 > series.last().open_time.0 && n < 600 ==> later == series.push(bar)
            &&& bar.open_time.0 > series.last().open_time.0 && n == 600 ==> later
                == series.drop_first().push(bar)
            &&& with_bar(Seq::empty(), bar) == seq![bar]
        }),
{
    assert(Seq::<Candle>::empty().push(bar) =~= seq![bar]);
    if series.len() == 600 {
        assert(series.push(bar).skip(1) =~= series.drop_first().push(bar));
    }
}

/// A bar that is published is put among those of its instrument, and a print at the end of its tape.
pub proof fn what_is_published_is_kept(
    state: MarketStateView,
    event: EventView,
    bar: Candle,
    trade: PublicTrade,
)
    ensures
        event.payload == PayloadView::Candle(bar) ==> kept(
            state.after(event).candles,
            bar.symbol@.key(),
        ) == with_bar(kept(state.candles, bar.symbol@.key()), bar),
        event.payload == PayloadView::Trade(trade) ==> kept(
            state.after(event).tape,
            trade.symbol@.key(),
        ).last() == trade,
{
}

/// An event of one instrument leaves everything about the others alone, and a print, a bar and a
/// book leave each other alone.
pub proof fn events_keep_to_their_own(state: MarketStateView, event: EventView, key: Seq<char>)
    ensures
        ({
            let after = state.after(event);
            let of = match event.payload {
                PayloadView::Trade(t) => Some(t.symbol@.key()),
                PayloadView::Candle(c) => Some(c.symbol@.key()),
                PayloadView::BookDelta(d) => Some(d.symbol.key()),
                PayloadView::BookSnapshot(b) => match b.symbol {
                    Some(s) => Some(s.key()),
                    None => None,
                },
                _ => None,
            };
            let book = event.payload is BookSnapshot || event.payload is BookDelta;
            &&& of != Some(key) || !(event.payload is Trade) ==> kept(after.tape, key) == kept(
                state.tape,
                key,
            )
            &&& of != Some(key) || !(event.payload is Candle) ==> kept(after.candles, key) == kept(
                state.candles,
                key,
            )
            &&& of != Some(key) || !book ==> after.books.contains_key(key)
                == state.books.contains_key(key) && (state.books.contains_key(key)
                ==> after.books[key] == state.books[key])
        }),
{
}

/// A book that is published is the one that is held, whatever was held before; an update without a
/// book to go with makes none.
pub proof fn a_published_book_is_held(
    state: MarketStateView,
    event: EventView,
    book: OrderBookView,
    symbol: SymbolView,
    delta: BookDeltaView,
)
    requires
        book.symbol == Some(symbol),
    ensures
        event.payload == PayloadView::BookSnapshot(book) ==> state.after(
            event,
        ).books.contains_key(symbol.key()) && state.after(event).books[symbol.key()] == book,
        event.payload == PayloadView::BookDelta(delta) && !state.books.contains_key(
            delta.symbol.key(),
        ) ==> state.after(event) == state,
{
}

/// Only a book that has joined its stream is served, only for an instrument that was asked for, and
/// as it is.
pub proof fn only_live_books_are_served(state: MarketStateView, keys: Seq<Seq<char>>)
    ensures
        forall|i: int|
            0 <= i < state.served(keys).len() ==> (#[trigger] state.served(keys)[i]).synced
                && exists|j: int|
                0 <= j < keys.len() && state.books.contains_key(#[trigger] keys[j])
                    && state.books[keys[j]] == state.served(keys)[i],
    decreases keys.len(),
{
    if keys.len() > 0 {
        let rest = keys.drop_last();
        only_live_books_are_served(state, rest);
        let all = state.served(keys);
        let old = state.served(rest);
        assert forall|i: int| 0 <= i < all.len() implies (#[trigger] all[i]).synced && exists|j: int|
            0 <= j < keys.len() && state.books.contains_key(#[trigger] keys[j])
                && state.books[keys[j]] == all[i] by {
            if i < old.len() {
                assert(all[i] == old[i]);
                let j = choose|j: int|
                    0 <= j < rest.len() && state.books.contains_key(#[trigger] rest[j])
                        && state.books[rest[j]] == old[i];
                assert(keys[j] == rest[j]);
            } else {
                assert(keys[keys.len() - 1] == keys.last());
            }
        }
    }
}

/// What is gathered goes key by key, what is kept under each of them in its order.
pub proof fn gathering_goes_key_by_key<T>(
    series: Map<Seq<char>, Seq<T>>,
    keys: Seq<Seq<char>>,
    key: Seq<char>,
)
    ensures
        gathered(series, Seq::empty()) == Seq::<T>::empty(),
        series.contains_key(key) ==> gathered(series, keys.push(key)) == gathered(series, keys)
            + series[key],
        !series.contains_key(key) ==> gathered(series, keys.push(key)) == gathered(series, keys),
{
    assert(keys.push(key).drop_last() =~= keys);
    assert(gathered(series, keys) + Seq::<T>::empty() =~= gathered(series, keys));
}

/// What is gathered is everything that is kept under one of the keys, and nothing else.
pub proof fn all_of_it_is_gathered<T>(series: Map<Seq<char>, Seq<T>>, keys: Seq<Seq<char>>)
    ensures
        forall|j: int, i: int|
            0 <= j < keys.len() && 0 <= i < kept(series, keys[j]).len() ==> gathered(
                series,
                keys,
            ).contains(#[trigger] kept(series, keys[j])[i]),
        forall|i: int|
            0 <= i < gathered(series, keys).len() ==> exists|j: int|
                0 <= j < keys.len() && kept(series, #[trigger] keys[j]).contains(
                    #[trigger] gathered(series, keys)[i],
                ),
    decreases keys.len(),
{
    if keys.len() > 0 {
        let rest = keys.drop_last();
        let all = gathered(series, keys);
        let old = gathered(series, rest);
        let last = kept(series, keys.last());
        all_of_it_is_gathered(series, rest);
        assert forall|j: int, i: int|
            0 <= j < keys.len() && 0 <= i < kept(series, keys[j]).len() implies all.contains(
            #[trigger] kept(series, keys[j])[i],
        ) by {
            let x = kept(series, keys[j])[i];
            if j < rest.len() {
                assert(rest[j] == keys[j]);
                assert(old.contains(kept(series, rest[j])[i]));
                let k = old.index_of(x);
                assert(all[k] == x);
            } else {
                assert(all[old.len() + i] == x);
            }
        }
        assert forall|i: int| 0 <= i < all.len() implies exists|j: int|
            0 <= j < keys.len() && kept(series, #[trigger] keys[j]).contains(
                #[trigger] all[i],
            ) by {
            if i < old.len() {
                assert(all[i] == old[i]);
                let j = choose|j: int|
                    0 <= j < rest.len() && kept(series, #[trigger] rest[j]).contains(old[i]);
                assert(keys[j] == rest[j]);
            } else {
                assert(all[i] == last[i - old.len()]);
                assert(keys[keys.len() - 1] == keys.last());
            }
        }
    }
}

impl Default for MarketState {
    fn default() -> (r: Self)
        ensures
            r.wf(),
            r@ == (MarketStateView {
                books: Map::empty(),
                candles: Map::empty(),
                tape: Map::empty(),
            }),
    {
        let r = MarketState { books: Table::new(), candles: Table::new(), tape: Table::new() };
        assert(r@.books =~= Map::<Seq<char>, OrderBookView>::empty());
        assert(r@.candles =~= Map::<Seq<char>, Seq<Candle>>::empty());
        assert(r@.tape =~= Map::<Seq<char>, Seq<PublicTrade>>::empty());
        r
    }
}

impl MarketState {
    pub closed spec fn wf(&self) -> bool {
        self.books.wf() && self.candles.wf() && self.tape.wf()
    }

    /// Fold one event into the read-model. Called for every event before it is broadcast.
    pub fn apply(&mut self, event: &Event)
        requires
            old(self).wf(),
        ensures
            final(self).wf(),
            final(self)@ == old(self)@.after(event@),
    {
        let market = match &event.payload {
            Payload::Market(m) => m,
            _ => {
                return;
            },
        };
        let ghost start = self@;
        match market {
            MarketEvent::Candle(candle) => self.fold_candle(candle),
            MarketEvent::Trade(trade) => {
                let key = trade.symbol.key();
                let ghost k = key@;
                let ghost s0 = kept(start.tape, k);
                if !self.tape.contains(key.as_str()) {
                    self.tape.insert(key.clone(), VecDeque::new());
                }
                assert(self.tape@[k]@ =~= s0);
                if let Some(series) = self.tape.get_mut(key.as_str()) {
                    ring::push_capped(series, trade.clone(), TAPE_HISTORY);
                }
                assert(self@.tape =~= start.tape.insert(
                    k,
                    ring::newest(s0.push(*trade), TAPE_HISTORY as int),
                ));
                assert(self@.books =~= start.books);
                assert(self@.candles =~= start.candles);
            },
            MarketEvent::BookSnapshot(book) => {
                if let Some(symbol) = &book.symbol {
                    self.books.insert(symbol.key(), book.clone());
                    assert(self@.books =~= start.books.insert(symbol@.key(), book@));
                }
            },
            MarketEvent::BookDelta(delta) => {
                let key = delta.symbol.key();
                let ghost k = key@;
                let mut torn: bool = false;
                if let Some(book) = self.books.get_mut(key.as_str()) {
                    // A connector only forwards updates that chain, so a gap here means the core
                    // disagrees with itself.
                    if let ApplyOutcome::Gap { .. } = book.apply(delta) {
                        torn = true;
                    }
                }
                if torn {
                    let _ = self.books.remove(key.as_str());
                }
                assert(self@.books =~= start.books_after(delta@));
            },
            MarketEvent::Instruments { .. } => {},
        }
    }

    /// Replace the matching bar, or append a new one.
    ///
    /// The connector republishes the forming bar on every print, so this is an update far more
    /// often than an insert; matching on open time keeps one bar per bucket.
    fn fold_candle(&mut self, candle: &Candle)
        requires
            old(self).wf(),
        ensures
            final(self).wf(),
            final(self)@ == (MarketStateView {
                candles: old(self)@.candles.insert(
                    candle.symbol@.key(),
                    with_bar(kept(old(self)@.candles, candle.symbol@.key()), *candle),
                ),
                ..old(self)@
            }),
    {
        let key = candle.symbol.key();
        let ghost k = key@;
        let ghost start = self@;
        let ghost s0 = kept(start.candles, k);
        if !self.candles.contains(key.as_str()) {
            self.candles.insert(key.clone(), VecDeque::new());
        }
        assert(self.candles@[k]@ =~= s0);
        if let Some(series) = self.candles.get_mut(key.as_str()) {
            put_bar(series, candle);
        }
        assert(self@.candles =~= start.candles.insert(k, with_bar(s0, *candle)));
        assert(self@.books =~= start.books);
        assert(self@.tape =~= start.tape);
    }

    /// Candle history for the instruments a session just subscribed to, oldest first.
    pub fn candles_for(&self, subs: &[Subscription]) -> (r: Vec<Candle>)
        requires
            self.wf(),
        ensures
            r@ == gathered(self@.candles, wanted(subs@)),
    {
        let keys = keys_of(subs);
        let ghost order = keys.order();
        let mut r: Vec<Candle> = Vec::new();
        let mut i: usize = 0;
        assert(order.take(0) =~= Seq::<Seq<char>>::empty());
        while i < keys.len()
            invariant
                self.wf(),
                keys.wf(),
                order == keys.order(),
                i <= order.len(),
                r@ == gathered(self@.candles, order.take(i as int)),
            decreases order.len() - i,
        {
            assert(order.take(i + 1).drop_last() =~= order.take(i as int));
            let ghost before = r@;
            if let Some(series) = self.candles.get(keys.key_at(i).as_str()) {
                let mut j: usize = 0;
                assert(before + series@.take(0) =~= before);
                while j < series.len()
                    invariant
                        j <= series@.len(),
                        r@ == before + series@.take(j as int),
                    decreases series@.len() - j,
                {
                    r.push(series[j].clone());
                    j += 1;
                    assert(before + series@.take(j as int) =~= (before + series@.take(
                        j - 1,
                    )).push(series@[j - 1]));
                }
                assert(series@.take(j as int) =~= series@);
            }
            assert(r@ =~= before + kept(self@.candles, order[i as int]));
            i += 1;
        }
        assert(order.take(i as int) =~= order);
        r
    }

    /// Print history for the instruments a session just subscribed to, oldest first.
    pub fn tape_for(&self, subs: &[Subscription]) -> (r: Vec<PublicTrade>)
        requires
            self.wf(),
        ensures
            r@ == gathered(self@.tape, wanted(subs@)),
    {
        let keys = keys_of(subs);
        let ghost order = keys.order();
        let mut r: Vec<PublicTrade> = Vec::new();
        let mut i: usize = 0;
        assert(order.take(0) =~= Seq::<Seq<char>>::empty());
        while i < keys.len()
            invariant
                self.wf(),
                keys.wf(),
                order == keys.order(),
                i <= order.len(),
                r@ == gathered(self@.tape, order.take(i as int)),
            decreases order.len() - i,
        {
            assert(order.take(i + 1).drop_last() =~= order.take(i as int));
            let ghost before = r@;
            if let Some(series) = self.tape.get(keys.key_at(i).as_str()) {
                let mut j: usize = 0;
                assert(before + series@.take(0) =~= before);
                while j < series.len()
                    invariant
                        j <= series@.len(),
                        r@ == before + series@.take(j as int),
                    decreases series@.len() - j,
                {
                    r.push(series[j].clone());
                    j += 1;
                    assert(before + series@.take(j as int) =~= (before + series@.take(
                        j - 1,
                    )).push(series@[j - 1]));
                }
                assert(series@.take(j as int) =~= series@);
            }
            assert(r@ =~= before + kept(self@.tape, order[i as int]));
            i += 1;
        }
        assert(order.take(i as int) =~= order);
        r
    }

    /// Current books for the instruments a session just subscribed to.
    ///
    /// Only synced books are returned: an unattached one would show a spread from a moment that
    /// has already passed.
    pub fn snapshots_for(&self, subs: &[Subscription]) -> (r: Vec<OrderBook>)
        requires
            self.wf(),
        ensures
            r@.map_values(|b: OrderBook| b@) == self@.served(wanted(subs@)),
    {
        let keys = keys_of(subs);
        let ghost order = keys.order();
        let mut r: Vec<OrderBook> = Vec::new();
        let mut i: usize = 0;
        assert(order.take(0) =~= Seq::<Seq<char>>::empty());
        assert(r@.map_values(|b: OrderBook| b@) =~= Seq::<OrderBookView>::empty());
        while i < keys.len()
            invariant
                self.wf(),
                keys.wf(),
                order == keys.order(),
                i <= order.len(),
                r@.map_values(|b: OrderBook| b@) == self@.served(order.take(i as int)),
            decreases order.len() - i,
        {
            assert(order.take(i + 1).drop_last() =~= order.take(i as int));
            if let Some(book) = self.books.get(keys.key_at(i).as_str()) {
                assert(self@.books[order[i as int]] == book@);
                if book.synced {
                    let ghost before = r@;
                    r.push(book.clone());
                    assert(r@.map_values(|b: OrderBook| b@) =~= before.map_values(
                        |b: OrderBook| b@,
                    ).push(book@));
                }
            }
            i += 1;
        }
        assert(order.take(i as int) =~= order);
        r
    }
}

fn put_bar(series: &mut VecDeque<Candle>, candle: &Candle)
    ensures
        final(series)@ == with_bar(old(series)@, *candle),
{
    let ghost s0 = series@;
    match series.pop_back() {
        None => {
            ring::push_capped(series, candle.clone(), HISTORY);
        },
        Some(last) => {
            assert(series@ =~= s0.drop_last());
            if last.open_time.0 == candle.open_time.0 {
                series.push_back(candle.clone());
            } else {
                let newer: bool = last.open_time.0 < candle.open_time.0;
                series.push_back(last);
                assert(series@ =~= s0);
                if newer {
                    ring::push_capped(series, candle.clone(), HISTORY);
                }
            }
        },
    }
}

/// The keys of the instruments that subscriptions concern.
fn keys_of(subs: &[Subscription]) -> (keys: Table<()>)
    ensures
        keys.wf(),
        keys.order() == wanted(subs@),
{
    let mut keys: Table<()> = Table::new();
    let mut i: usize = 0;
    assert(subs@.take(0) =~= Seq::<Subscription>::empty());
    while i < subs.len()
        invariant
            keys.wf(),
            i <= subs@.len(),
            keys.order() == wanted(subs@.take(i as int)),
        decreases subs@.len() - i,
    {
        assert(subs@.take(i + 1).drop_last() =~= subs@.take(i as int));
        keys.insert(subs[i].symbol().key(), ());
        i += 1;
    }
    assert(subs@.take(i as int) =~= subs@);
    keys
}

} // verus!

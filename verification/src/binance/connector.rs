//! What the connector does about everything that can happen to its socket.
//!
//! The connector owns book correctness. Consumers receive a whole book whenever one is built and
//! an update for every one that chained onto it, never an update that would tear their copy.
//! Snapshot fetching, gap recovery and resubscription after a reconnect all happen underneath.
//!
//! Nothing here touches a socket. Something happens, [`Connector::step`] says what to do about
//! it, and whoever holds the socket does it.

use crate::binance::frames;
use crate::binance::frames::Decoded;
use crate::binance::streams;
use crate::domain::event::{ConnectionEvent, Event, EventView, MarketEvent, PayloadView};
use crate::domain::ids::{MarketKind, Symbol, SymbolView};
use crate::domain::market::{BookDelta, BookDeltaView, Candle, OrderBook, PublicTrade};
use crate::domain::time::Timestamp;
use crate::marketdata::books;
use crate::marketdata::books::{BookSet, BookSetView, Need};
use crate::marketdata::candles;
use crate::marketdata::candles::{CandleSet, CandleSetView, Update};
use crate::table;
use crate::table::Table;
use vstd::prelude::*;

verus! {

/// Reconnect backoff bounds. The ceiling is low on purpose: a feed that is down is worse than a
/// few extra connection attempts.
pub const BACKOFF_START_MS: u64 = 500;

pub const BACKOFF_MAX_MS: u64 = 30_000;

/// Depth requested when rebuilding a book.
pub const SNAPSHOT_DEPTH: u32 = 100;

/// How often to look for books that have stopped moving.
pub const STALENESS_CHECK_MS: u64 = 5_000;

/// A book silent for this long on a live socket is reported, not waited out.
pub const STALE_AFTER_MS: i64 = 30_000;

/// Candle bucket. One second, because the chart this feeds is a scalping chart.
pub const CANDLE_INTERVAL_MS: i64 = 1_000;

/// What the connector is told to stream.
pub enum Command {
    Subscribe(Vec<String>),
    Unsubscribe(Vec<String>),
}

/// The outcome of one snapshot fetch.
///
/// Failure is a variant rather than a log line: a fetch that reports nothing leaves the book
/// waiting for a snapshot that is never coming.
pub enum SnapshotResult {
    Fetched(OrderBook),
    Failed(Symbol),
}

/// Why a connection is given up.
#[derive(Debug, PartialEq, Eq)]
pub enum Exit {
    /// The connector was dropped; stop for good.
    Shutdown,
    /// The socket died; reconnect and resubscribe.
    Reconnect(String),
}

/// Something that happened.
pub enum Input {
    /// The socket has connected.
    Opened,
    /// A command came in; none when nobody is left to send one.
    Command(Option<Command>),
    /// The venue sent text.
    Text(String),
    /// The venue sent a ping. It drops a connection that does not answer.
    Ping(Vec<u8>),
    /// The venue said goodbye.
    Closed,
    /// The stream is over.
    Ended,
    /// The socket failed.
    Failed(String),
    /// Any other message.
    Other,
    /// A snapshot fetch reported back.
    Snapshot(SnapshotResult),
    /// It is time to look for frozen books.
    Tick,
}

/// Something to do.
#[derive(Debug, PartialEq, Eq)]
pub enum Action {
    /// Hand an event to every consumer.
    Publish(Event),
    /// Write a text frame. Where that fails, the connection is given up for the reason given.
    Write { frame: String, otherwise: &'static str },
    /// Answer a ping. Where that fails, the connection is given up for the reason given.
    Pong { payload: Vec<u8>, otherwise: &'static str },
    /// Fetch a book snapshot and report back.
    Fetch { symbol: Symbol, depth: u32 },
    /// Give the connection up.
    Leave(Exit),
    /// A volume has left the range of numbers; there is no going on.
    Overflow,
}

/// What an [`Action`] says.
pub enum ActionView {
    Publish(EventView),
    Write(Seq<char>, Seq<char>),
    Pong(Seq<u8>, Seq<char>),
    Fetch(SymbolView, u32),
    Shutdown,
    Reconnect(Seq<char>),
    Overflow,
}

impl View for Action {
    type V = ActionView;

    open spec fn view(&self) -> ActionView {
        match self {
            Action::Publish(e) => ActionView::Publish(e@),
            Action::Write { frame, otherwise } => ActionView::Write(frame@, otherwise@),
            Action::Pong { payload, otherwise } => ActionView::Pong(payload@, otherwise@),
            Action::Fetch { symbol, depth } => ActionView::Fetch(symbol@, *depth),
            Action::Leave(Exit::Shutdown) => ActionView::Shutdown,
            Action::Leave(Exit::Reconnect(why)) => ActionView::Reconnect(why@),
            Action::Overflow => ActionView::Overflow,
        }
    }
}

/// What a list of actions says.
pub open spec fn views(actions: Seq<Action>) -> Seq<ActionView> {
    actions.map_values(|a: Action| a@)
}

proof fn lemma_views_push(actions: Seq<Action>, a: Action)
    ensures
        views(actions.push(a)) == views(actions).push(a@),
{
    assert(views(actions.push(a)) =~= views(actions).push(a@));
}

/// One venue connection: what is subscribed to, the books and the candles.
pub struct Connector {
    market: MarketKind,
    /// Survives reconnects: the venue forgets what was subscribed to, the connector does not.
    active: Table<()>,
    books: BookSet,
    candles: CandleSet,
    frame_id: u64,
    backoff_ms: u64,
}

/// What a [`Connector`] holds.
pub struct ConnectorView {
    pub market: MarketKind,
    /// The streams subscribed to, in text order.
    pub active: Seq<Seq<char>>,
    pub books: BookSetView,
    pub candles: CandleSetView,
    /// The number of the last control frame of this connection.
    pub frame_id: u64,
    /// How long to wait before the next attempt to connect.
    pub backoff_ms: u64,
}

impl View for Connector {
    type V = ConnectorView;

    closed spec fn view(&self) -> ConnectorView {
        ConnectorView {
            market: self.market,
            active: self.active.order(),
            books: self.books@,
            candles: self.candles@,
            frame_id: self.frame_id,
            backoff_ms: self.backoff_ms,
        }
    }
}

pub open spec fn published(now: Timestamp, payload: PayloadView) -> ActionView {
    ActionView::Publish(EventView { at: now, payload })
}

/// What a bar that changed calls for. A boundary yields two: the bar that just became final, then
/// the one now forming. Sending only the new one would leave the previous bar drawn as
/// still-forming forever.
pub open spec fn redrawn(update: Update, now: Timestamp) -> Seq<ActionView> {
    match update {
        Update::Formed(c) => seq![published(now, PayloadView::Candle(c))],
        Update::Closed { closed, opened } => seq![
            published(now, PayloadView::Candle(closed)),
            published(now, PayloadView::Candle(opened)),
        ],
        Update::Ignored => Seq::empty(),
    }
}

impl ConnectorView {
    /// What a new connection calls for: asking again for all that was asked for before it
    /// existed, and telling consumers that the stream is live.
    pub open spec fn on_opened(self, now: Timestamp) -> Seq<ActionView> {
        let ready = published(now, PayloadView::Ready);
        if self.active.len() > 0 {
            seq![
                ActionView::Write(
                    streams::framed("SUBSCRIBE"@, self.active, 1),
                    "failed to resubscribe"@,
                ),
                ready,
            ]
        } else {
            seq![ready]
        }
    }

    /// What a trade calls for. Candles are folded from the same prints the tape shows, so the two
    /// can never disagree.
    pub open spec fn on_trade(self, trade: PublicTrade, now: Timestamp) -> Seq<ActionView> {
        if self.candles.folds(trade) {
            redrawn(
                candles::told(
                    self.candles.of(trade.symbol@.key()),
                    trade,
                    self.candles.interval_ms,
                ),
                now,
            ).push(published(now, PayloadView::Trade(trade)))
        } else {
            seq![ActionView::Overflow]
        }
    }

    pub open spec fn after_trade(self, trade: PublicTrade) -> ConnectorView {
        if self.candles.folds(trade) {
            ConnectorView { candles: self.candles.after(trade), ..self }
        } else {
            self
        }
    }

    /// What a book update calls for: passing on only what is safe to pass on, and a fetch where
    /// the book has to be rebuilt.
    pub open spec fn on_delta(self, delta: BookDeltaView, now: Timestamp) -> Seq<ActionView> {
        let entry = self.books.entry(delta.symbol);
        let outcome = entry.outcome(delta, now, self.books.cooldown_ms);
        let after = entry.after_delta(delta, now, self.books.cooldown_ms);
        let told = if outcome.attached {
            seq![published(now, PayloadView::BookSnapshot(after.book->0))]
        } else if outcome.forward {
            seq![published(now, PayloadView::BookDelta(delta))]
        } else {
            Seq::empty()
        };
        match outcome.wanted {
            Some(symbol) => told.push(
                published(
                    now,
                    PayloadView::Resyncing("rebuilding book for "@ + symbol.key()),
                ),
            ).push(ActionView::Fetch(symbol, SNAPSHOT_DEPTH)),
            None => told,
        }
    }

    pub open spec fn after_delta(self, delta: BookDeltaView, now: Timestamp) -> ConnectorView {
        ConnectorView { books: self.books.after_delta(delta, now), ..self }
    }

    /// What is left of it when a connection is gone.
    pub open spec fn after_loss(self) -> ConnectorView {
        ConnectorView {
            books: BookSetView { entries: Map::empty(), cooldown_ms: self.books.cooldown_ms },
            ..self
        }
    }

    /// What the frozen books among `symbols` call for: saying which book froze.
    pub open spec fn on_frozen(symbols: Seq<SymbolView>, now: Timestamp) -> Seq<ActionView> {
        symbols.map_values(
            |s: SymbolView|
                published(now, PayloadView::Resyncing(s.key() + " has not updated in 30s"@)),
        )
    }
}

/// What a decoded frame does.
pub open spec fn handled(
    old: ConnectorView,
    frame: Option<Decoded>,
    now: Timestamp,
    new: ConnectorView,
    actions: Seq<ActionView>,
) -> bool {
    match frame {
        Some(Decoded::Trade(t)) => new == old.after_trade(t) && actions == old.on_trade(t, now),
        Some(Decoded::Delta(d)) => new == old.after_delta(d@, now) && actions == old.on_delta(
            d@,
            now,
        ),
        None => new == old && actions.len() == 0,
    }
}

/// What a snapshot that was fetched does.
pub open spec fn installed(
    old: ConnectorView,
    snapshot: OrderBook,
    now: Timestamp,
    new: ConnectorView,
    actions: Seq<ActionView>,
) -> bool {
    let key = snapshot.symbol->0@.key();
    let known = snapshot.symbol is Some && old.books.entries.contains_key(key);
    let book = books::replayed(snapshot@, old.books.entries[key].buffered);
    &&& new == ConnectorView { books: old.books.after_snapshot(snapshot@, now), ..old }
    &&& actions == if known && book is Some && book->0.synced {
        seq![published(now, PayloadView::BookSnapshot(book->0))]
    } else {
        Seq::empty()
    }
}

/// What anything that happens does.
pub open spec fn steps(
    old: ConnectorView,
    input: Input,
    now: Timestamp,
    new: ConnectorView,
    order: Seq<Seq<char>>,
    actions: Seq<ActionView>,
) -> bool {
    match input {
        Input::Opened => {
            &&& new == ConnectorView {
                frame_id: if old.active.len() > 0 {
                    1
                } else {
                    0
                },
                ..old
            }
            &&& actions == old.on_opened(now)
        },
        Input::Command(None) => new == old && actions == seq![ActionView::Shutdown],
        Input::Command(Some(Command::Subscribe(names))) => {
            let names = table::texts(names@);
            &&& new == ConnectorView {
                active: new.active,
                frame_id: (old.frame_id + 1) as u64,
                ..old
            }
            &&& forall|n: Seq<char>| #[trigger]
                new.active.contains(n) <==> old.active.contains(n) || names.contains(n)
            &&& actions == seq![
                ActionView::Write(
                    streams::framed("SUBSCRIBE"@, names, (old.frame_id + 1) as u64),
                    "subscribe write failed"@,
                ),
            ]
        },
        Input::Command(Some(Command::Unsubscribe(names))) => {
            let names = table::texts(names@);
            &&& new == ConnectorView {
                active: new.active,
                frame_id: (old.frame_id + 1) as u64,
                ..old
            }
            &&& forall|n: Seq<char>| #[trigger]
                new.active.contains(n) <==> old.active.contains(n) && !names.contains(n)
            &&& actions == seq![
                ActionView::Write(
                    streams::framed("UNSUBSCRIBE"@, names, (old.frame_id + 1) as u64),
                    "unsubscribe write failed"@,
                ),
            ]
        },
        Input::Text(frame) => exists|d: Option<Decoded>|
            frames::decoded_view(d) == frames::decoded(frame@, old.market) && #[trigger] handled(
                old,
                d,
                now,
                new,
                actions,
            ),
        Input::Ping(payload) => new == old && actions == seq![
            ActionView::Pong(payload@, "pong write failed"@),
        ],
        Input::Closed => new == old && actions == seq![ActionView::Reconnect("server closed"@)],
        Input::Ended => new == old && actions == seq![ActionView::Reconnect("stream ended"@)],
        Input::Failed(why) => new == old && actions == seq![ActionView::Reconnect(why@)],
        Input::Other => new == old && actions.len() == 0,
        Input::Snapshot(SnapshotResult::Fetched(snapshot)) => installed(
            old,
            snapshot,
            now,
            new,
            actions,
        ),
        Input::Snapshot(SnapshotResult::Failed(symbol)) => {
            &&& actions.len() == 0
            &&& new == ConnectorView { books: old.books.after_failure(symbol@), ..old }
        },
        Input::Tick => new == old && actions == ConnectorView::on_frozen(
            old.books.frozen(order, now, STALE_AFTER_MS),
            now,
        ),
    }
}

/// The venue forgets what was subscribed to when a connection is lost, the connector does not:
/// once the next one is open, the first thing written asks again for all of it.
pub proof fn subscriptions_survive_a_reconnect(
    before: ConnectorView,
    now: Timestamp,
    after: ConnectorView,
    order: Seq<Seq<char>>,
    actions: Seq<ActionView>,
)
    requires
        steps(before.after_loss(), Input::Opened, now, after, order, actions),
        before.active.len() > 0,
    ensures
        after.active == before.active,
        actions[0] == ActionView::Write(
            streams::framed("SUBSCRIBE"@, before.active, 1),
            "failed to resubscribe"@,
        ),
{
}

/// A bar that has become final is announced before the one that follows it, and both before the
/// print that closed it.
pub proof fn a_final_bar_is_announced(
    connector: ConnectorView,
    trade: PublicTrade,
    now: Timestamp,
    closed: Candle,
    opened: Candle,
)
    requires
        connector.candles.folds(trade),
        candles::told(
            connector.candles.of(trade.symbol@.key()),
            trade,
            connector.candles.interval_ms,
        ) == (Update::Closed { closed, opened }),
    ensures
        connector.on_trade(trade, now) == seq![
            published(now, PayloadView::Candle(closed)),
            published(now, PayloadView::Candle(opened)),
            published(now, PayloadView::Trade(trade)),
        ],
{
    assert(connector.on_trade(trade, now) =~= seq![
        published(now, PayloadView::Candle(closed)),
        published(now, PayloadView::Candle(opened)),
        published(now, PayloadView::Trade(trade)),
    ]);
}

/// A print is passed on whatever became of its bar, after the bar, and nothing else is said of it.
pub proof fn every_print_is_passed_on(
    connector: ConnectorView,
    trade: PublicTrade,
    now: Timestamp,
    i: int,
)
    requires
        connector.candles.folds(trade),
    ensures
        ({
            let said = connector.on_trade(trade, now);
            &&& said.len() > 0
            &&& said.last() == published(now, PayloadView::Trade(trade))
            &&& 0 <= i < said.len() - 1 ==> (said[i] matches ActionView::Publish(e) && e.payload
                is Candle && e.at == now)
        }),
{
}

/// A bar that changed is announced as it now is, before the print that changed it; a print of an
/// older bucket announces none.
pub proof fn a_changed_bar_is_announced(
    connector: ConnectorView,
    trade: PublicTrade,
    now: Timestamp,
    bar: Candle,
)
    requires
        connector.candles.folds(trade),
    ensures
        ({
            let told = candles::told(
                connector.candles.of(trade.symbol@.key()),
                trade,
                connector.candles.interval_ms,
            );
            &&& told == Update::Formed(bar) ==> connector.on_trade(trade, now) == seq![
                published(now, PayloadView::Candle(bar)),
                published(now, PayloadView::Trade(trade)),
            ]
            &&& told == Update::Ignored ==> connector.on_trade(trade, now) == seq![
                published(now, PayloadView::Trade(trade)),
            ]
        }),
{
    assert(seq![published(now, PayloadView::Candle(bar))].push(
        published(now, PayloadView::Trade(trade)),
    ) =~= seq![
        published(now, PayloadView::Candle(bar)),
        published(now, PayloadView::Trade(trade)),
    ]);
    assert(Seq::<ActionView>::empty().push(published(now, PayloadView::Trade(trade))) =~= seq![
        published(now, PayloadView::Trade(trade)),
    ]);
}

/// A print that cannot be counted is passed on to nobody and changes nothing; any other changes the
/// bars and nothing else.
pub proof fn a_print_changes_the_bars_only(connector: ConnectorView, trade: PublicTrade, now: Timestamp)
    ensures
        !connector.candles.folds(trade) ==> connector.on_trade(trade, now) == seq![
            ActionView::Overflow,
        ] && connector.after_trade(trade) == connector,
        connector.candles.folds(trade) ==> connector.after_trade(trade).candles
            == connector.candles.after(trade),
        connector.after_trade(trade).books == connector.books,
        connector.after_trade(trade).active == connector.active,
{
}

/// What is asked for is added to what is streamed, what is given up is taken out of it, all of it
/// and nothing more; and the venue is told exactly what was asked of the connector.
pub proof fn commands_are_carried_out(
    old: ConnectorView,
    command: Command,
    now: Timestamp,
    new: ConnectorView,
    order: Seq<Seq<char>>,
    actions: Seq<ActionView>,
    name: Seq<char>,
)
    requires
        steps(old, Input::Command(Some(command)), now, new, order, actions),
        old.frame_id < u64::MAX,
    ensures
        new.frame_id == old.frame_id + 1,
        new.books == old.books,
        new.candles == old.candles,
        actions.len() == 1,
        command matches Command::Subscribe(names) ==> {
            &&& new.active.contains(name) <==> old.active.contains(name) || table::texts(
                names@,
            ).contains(name)
            &&& actions[0] matches ActionView::Write(frame, _) && frame == streams::framed(
                "SUBSCRIBE"@,
                table::texts(names@),
                new.frame_id,
            )
        },
        command matches Command::Unsubscribe(names) ==> {
            &&& new.active.contains(name) <==> old.active.contains(name) && !table::texts(
                names@,
            ).contains(name)
            &&& actions[0] matches ActionView::Write(frame, _) && frame == streams::framed(
                "UNSUBSCRIBE"@,
                table::texts(names@),
                new.frame_id,
            )
        },
{
}

/// A frame does what it turns out to be: a print is counted and passed on, a book update is taken in,
/// and what is not recognised does nothing.
pub proof fn a_frame_does_what_it_is(
    old: ConnectorView,
    frame: String,
    now: Timestamp,
    new: ConnectorView,
    order: Seq<Seq<char>>,
    actions: Seq<ActionView>,
)
    requires
        steps(old, Input::Text(frame), now, new, order, actions),
    ensures
        match frames::decoded(frame@, old.market) {
            Some(frames::DecodedView::Delta(delta)) => actions == old.on_delta(delta, now)
                && new.books == old.books.after_delta(delta, now) && new.candles == old.candles,
            Some(frames::DecodedView::Trade(t)) => exists|trade: PublicTrade|
                trade@ == t && actions == #[trigger] old.on_trade(trade, now) && new
                    == old.after_trade(trade),
            None => new == old && actions.len() == 0,
        },
        new.active == old.active,
{
    let d = choose|d: Option<Decoded>|
        frames::decoded_view(d) == frames::decoded(frame@, old.market) && #[trigger] handled(
            old,
            d,
            now,
            new,
            actions,
        );
    if let Some(Decoded::Trade(t)) = d {
        assert(actions == old.on_trade(t, now));
    }
}

/// Once a connection is open consumers are told that it is, and that is the last thing done.
pub proof fn an_open_connection_is_announced(
    old: ConnectorView,
    now: Timestamp,
    new: ConnectorView,
    order: Seq<Seq<char>>,
    actions: Seq<ActionView>,
)
    requires
        steps(old, Input::Opened, now, new, order, actions),
    ensures
        actions.len() > 0,
        actions.last() == published(now, PayloadView::Ready),
        old.active.len() == 0 ==> actions.len() == 1,
        new.active == old.active,
        new.books == old.books,
        new.candles == old.candles,
{
}

/// An update that follows a book that consumers have is passed on as it is; one that a book joins
/// its stream with is not, and the whole book goes out in its place; one that the book has already
/// seen is not passed on.
pub proof fn updates_are_passed_on_to_who_can_use_them(
    connector: ConnectorView,
    delta: BookDeltaView,
    now: Timestamp,
)
    requires
        connector.books.entry(delta.symbol).book is Some,
    ensures
        ({
            let book = connector.books.entry(delta.symbol).book->0;
            let said = connector.on_delta(delta, now);
            let newer = delta.last_update_id > book.last_update_id;
            &&& book.last_update_id > 0 && book.synced && newer && delta.prev_update_id
                == book.last_update_id ==> said == seq![
                published(now, PayloadView::BookDelta(delta)),
            ]
            &&& book.last_update_id > 0 && !book.synced && newer && delta.prev_update_id
                <= book.last_update_id ==> said == seq![
                published(now, PayloadView::BookSnapshot(book.after(delta))),
            ]
            &&& !newer ==> said.len() == 0
        }),
{
}

/// An update that shows a hole, or that finds no book, is passed on to nobody. The first of them
/// has consumers told that the book is being rebuilt and a snapshot fetched for it, a hundred
/// levels deep.
pub proof fn a_torn_book_is_fetched_again(
    connector: ConnectorView,
    delta: BookDeltaView,
    now: Timestamp,
    i: int,
)
    requires
        connector.books.entry(delta.symbol).book is None || books::hole(
            connector.books.entry(delta.symbol).book->0,
            delta,
        ),
    ensures
        ({
            let said = connector.on_delta(delta, now);
            &&& 0 <= i < said.len() ==> (said[i] matches ActionView::Publish(e) ==> e.payload
                is Resyncing)
            &&& connector.books.entry(delta.symbol).requested_at is None ==> said == seq![
                published(
                    now,
                    PayloadView::Resyncing(
                        "rebuilding book for "@ + connector.books.entry(delta.symbol).symbol.key(),
                    ),
                ),
                ActionView::Fetch(connector.books.entry(delta.symbol).symbol, 100),
            ]
            &&& said.len() == 0 || said.len() == 2
        }),
{
    let said = connector.on_delta(delta, now);
    let symbol = connector.books.entry(delta.symbol).symbol;
    if connector.books.entry(delta.symbol).requested_at is None {
        assert(said =~= seq![
            published(now, PayloadView::Resyncing("rebuilding book for "@ + symbol.key())),
            ActionView::Fetch(symbol, 100),
        ]);
    }
}

/// With a connection the books are lost and nothing else: what is subscribed to and the bars stay.
pub proof fn only_the_books_are_lost(connector: ConnectorView, key: Seq<char>)
    ensures
        connector.after_loss().books.served(key) is None,
        !connector.after_loss().books.entries.contains_key(key),
        connector.after_loss().books.cooldown_ms == connector.books.cooldown_ms,
        connector.after_loss().active == connector.active,
        connector.after_loss().candles == connector.candles,
        connector.after_loss().market == connector.market,
        connector.after_loss().backoff_ms == connector.backoff_ms,
{
}

/// A ping is answered with its own payload, a connection that ends or fails is made again and for
/// that reason, and only where nobody is left to command does it end for good.
pub proof fn a_connection_is_kept_up(
    old: ConnectorView,
    input: Input,
    now: Timestamp,
    new: ConnectorView,
    order: Seq<Seq<char>>,
    actions: Seq<ActionView>,
)
    requires
        steps(old, input, now, new, order, actions),
        input is Ping || input is Closed || input is Ended || input is Failed || input is Other
            || input == Input::Command(None),
    ensures
        new == old,
        input matches Input::Ping(payload) ==> actions.len() == 1 && (
        actions[0] matches ActionView::Pong(back, _) && back == payload@),
        input is Closed || input is Ended ==> actions.len() == 1 && actions[0] is Reconnect,
        input matches Input::Failed(why) ==> actions == seq![ActionView::Reconnect(why@)],
        input is Other ==> actions.len() == 0,
        input is Command ==> actions == seq![ActionView::Shutdown],
{
}

/// A snapshot is published only where it has joined the stream with what was held for it, and then
/// as it is served from then on. One that could not be had is published nowhere.
pub proof fn a_snapshot_is_published_once_it_has_joined(
    old: ConnectorView,
    result: SnapshotResult,
    now: Timestamp,
    new: ConnectorView,
    order: Seq<Seq<char>>,
    actions: Seq<ActionView>,
)
    requires
        steps(old, Input::Snapshot(result), now, new, order, actions),
    ensures
        new.candles == old.candles,
        new.active == old.active,
        result is Failed ==> actions.len() == 0,
        result matches SnapshotResult::Fetched(snapshot) ==> {
            let key = snapshot.symbol->0@.key();
            let known = snapshot.symbol is Some && old.books.entries.contains_key(key);
            &&& known && new.books.served(key) is Some ==> actions == seq![
                published(now, PayloadView::BookSnapshot(new.books.served(key)->0)),
            ]
            &&& !known || new.books.served(key) is None ==> actions.len() == 0
            &&& !known ==> new == old
        },
{
}

/// When it is time to look, every book that has not moved for more than half a minute is reported,
/// by its name, and no other.
pub proof fn frozen_books_are_named(
    old: ConnectorView,
    now: Timestamp,
    new: ConnectorView,
    order: Seq<Seq<char>>,
    actions: Seq<ActionView>,
    i: int,
)
    requires
        steps(old, Input::Tick, now, new, order, actions),
        0 <= i < order.len(),
        old.books.entries[order[i]].book is Some,
        now.0 - old.books.entries[order[i]].updated_at.0 > 30_000,
    ensures
        actions.contains(
            published(
                now,
                PayloadView::Resyncing(
                    old.books.entries[order[i]].symbol.key() + " has not updated in 30s"@,
                ),
            ),
        ),
        actions.len() <= order.len(),
        new == old,
{
    books::frozen_books_are_reported(old.books, order, now, 30_000);
    books::lemma_frozen_len(old.books, order, now, 30_000);
    let s = old.books.entries[order[i]].symbol;
    let frozen = old.books.frozen(order, now, 30_000);
    assert(frozen.contains(s));
    let k = frozen.index_of(s);
    assert(actions[k] == published(
        now,
        PayloadView::Resyncing(s.key() + " has not updated in 30s"@),
    ));
}

impl Connector {
    pub closed spec fn wf(&self) -> bool {
        &&& self.active.wf()
        &&& self.books.wf()
        &&& self.candles.wf()
        &&& BACKOFF_START_MS <= self.backoff_ms <= BACKOFF_MAX_MS
        &&& self.past()
    }

    /// Every stamp that is held lies at or after the epoch.
    spec fn past(&self) -> bool {
        forall|k: Seq<char>| #[trigger]
            self.books@.entries.contains_key(k) ==> self.books@.entries[k].updated_at.0 >= 0 && (
            self.books@.entries[k].requested_at matches Some(at) ==> at.0 >= 0)
    }

    /// The keys of the books in the order they are walked in.
    pub closed spec fn book_order(&self) -> Seq<Seq<char>> {
        self.books.order()
    }

    /// What is subscribed to is listed once each, in text order, and the walk over the books
    /// visits every one of them once.
    pub proof fn lemma_order(&self)
        requires
            self.wf(),
        ensures
            table::ascending(self@.active),
            table::ascending(self.book_order()),
            forall|k: Seq<char>| #[trigger]
                self@.books.entries.contains_key(k) <==> self.book_order().contains(k),
    {
        self.active.lemma_order();
        self.books.lemma_order();
    }

    pub fn new(market: MarketKind) -> (r: Connector)
        ensures
            r.wf(),
            r@.market == market,
            r@.active.len() == 0,
            r@.books == (BookSetView {
                entries: Map::empty(),
                cooldown_ms: books::DEFAULT_RESYNC_COOLDOWN_MS,
            }),
            r@.candles == (CandleSetView {
                interval_ms: CANDLE_INTERVAL_MS,
                capacity: candles::DEFAULT_CAPACITY,
                series: Map::empty(),
            }),
            r@.frame_id == 0,
            r@.backoff_ms == BACKOFF_START_MS,
    {
        let active: Table<()> = Table::new();
        proof {
            active.lemma_order();
            if active.order().len() > 0 {
                assert(active.order().contains(active.order()[0]));
                assert(active@.contains_key(active.order()[0]));
            }
        }
        Connector {
            market,
            active,
            books: BookSet::default(),
            candles: CandleSet::new(CANDLE_INTERVAL_MS, candles::DEFAULT_CAPACITY),
            frame_id: 0,
            backoff_ms: BACKOFF_START_MS,
        }
    }

    pub fn market(&self) -> (r: MarketKind)
        ensures
            r == self@.market,
    {
        self.market
    }

    /// The event that an attempt to connect starts with.
    pub fn connecting(&self, now: Timestamp) -> (e: Event)
        ensures
            e@ == (EventView { at: now, payload: PayloadView::Connecting }),
    {
        Event::connection(now, ConnectionEvent::Connecting)
    }

    /// The venue was reached: the next attempts start over with short waits.
    pub fn reached(&mut self)
        requires
            old(self).wf(),
        ensures
            final(self).wf(),
            final(self)@ == (ConnectorView { backoff_ms: BACKOFF_START_MS, ..old(self)@ }),
    {
        self.backoff_ms = BACKOFF_START_MS;
    }

    /// The connection is gone, or never came about. Sequence numbers do not survive that, so
    /// neither do the books.
    pub fn lost(&mut self, reason: String, now: Timestamp) -> (e: Event)
        requires
            old(self).wf(),
        ensures
            final(self).wf(),
            final(self)@ == old(self)@.after_loss(),
            e@ == (EventView { at: now, payload: PayloadView::Disconnected(reason@) }),
    {
        self.books.reset();
        Event::connection(now, ConnectionEvent::Disconnected { reason })
    }

    /// How long to wait before the next attempt. Each wait is twice the one before, up to the
    /// ceiling.
    pub fn pause(&mut self) -> (ms: u64)
        requires
            old(self).wf(),
        ensures
            final(self).wf(),
            BACKOFF_START_MS <= ms <= BACKOFF_MAX_MS,
            500 <= ms <= 30_000,
            ms == old(self)@.backoff_ms,
            final(self)@.backoff_ms == if 2 * ms <= 30_000 {
                2 * ms
            } else {
                30_000
            },
            final(self)@ == (ConnectorView {
                backoff_ms: if 2 * old(self)@.backoff_ms <= BACKOFF_MAX_MS {
                    (2 * old(self)@.backoff_ms) as u64
                } else {
                    BACKOFF_MAX_MS
                },
                ..old(self)@
            }),
    {
        let ms: u64 = self.backoff_ms;
        self.backoff_ms = if 2 * ms <= BACKOFF_MAX_MS {
            2 * ms
        } else {
            BACKOFF_MAX_MS
        };
        ms
    }

    /// What to do about something that happened.
    pub fn step(&mut self, input: Input, now: Timestamp) -> (r: Vec<Action>)
        requires
            old(self).wf(),
            now.0 >= 0,
            input is Command ==> old(self)@.frame_id < u64::MAX,
        ensures
            final(self).wf(),
            steps(old(self)@, input, now, final(self)@, old(self).book_order(), views(r@)),
    {
        match input {
            Input::Opened => self.open(now),
            Input::Command(command) => {
                let action = self.command(command);
                one(action)
            },
            Input::Text(frame) => {
                let d = frames::decode(frame.as_str(), self.market);
                self.on_decoded(d, now)
            },
            // The venue pings every few minutes and drops a connection that does not answer.
            Input::Ping(payload) => one(Action::Pong { payload, otherwise: "pong write failed" }),
            Input::Closed => one(Action::Leave(Exit::Reconnect("server closed".to_owned()))),
            Input::Ended => one(Action::Leave(Exit::Reconnect("stream ended".to_owned()))),
            Input::Failed(why) => one(Action::Leave(Exit::Reconnect(why))),
            Input::Other => none(),
            Input::Snapshot(SnapshotResult::Fetched(snapshot)) => self.install(snapshot, now),
            Input::Snapshot(SnapshotResult::Failed(symbol)) => {
                self.books.snapshot_failed(&symbol);
                none()
            },
            Input::Tick => self.report_frozen(now),
        }
    }

    /// Re-arm everything the caller asked for before this connection existed.
    fn open(&mut self, now: Timestamp) -> (r: Vec<Action>)
        requires
            old(self).wf(),
        ensures
            final(self).wf(),
            steps(
                old(self)@,
                Input::Opened,
                now,
                final(self)@,
                old(self).book_order(),
                views(r@),
            ),
    {
        let mut r: Vec<Action> = Vec::new();
        self.frame_id = 0;
        if self.active.len() > 0 {
            self.frame_id = 1;
            let names = self.names();
            let frame = streams::control_frame("SUBSCRIBE", names.as_slice(), 1);
            r.push(Action::Write { frame, otherwise: "failed to resubscribe" });
        }
        r.push(Action::Publish(Event::connection(now, ConnectionEvent::Ready)));
        assert(views(r@) =~= old(self)@.on_opened(now));
        r
    }

    /// The streams subscribed to, in text order.
    fn names(&self) -> (r: Vec<String>)
        requires
            self.wf(),
        ensures
            table::texts(r@) == self@.active,
    {
        let mut r: Vec<String> = Vec::new();
        let mut i: usize = 0;
        assert(table::texts(r@) =~= self@.active.take(0));
        while i < self.active.len()
            invariant
                self.wf(),
                i <= self@.active.len(),
                table::texts(r@) == self@.active.take(i as int),
            decreases self@.active.len() - i,
        {
            let ghost before = r@;
            r.push(self.active.key_at(i).clone());
            i += 1;
            assert(table::texts(r@) =~= table::texts(before).push(self@.active[i - 1]));
            assert(self@.active.take(i as int) =~= self@.active.take(i - 1).push(
                self@.active[i - 1],
            ));
        }
        assert(self@.active.take(i as int) =~= self@.active);
        r
    }

    fn command(&mut self, command: Option<Command>) -> (a: Action)
        requires
            old(self).wf(),
            old(self)@.frame_id < u64::MAX,
        ensures
            final(self).wf(),
            steps(
                old(self)@,
                Input::Command(command),
                Timestamp(0),
                final(self)@,
                old(self).book_order(),
                seq![a@],
            ),
    {
        match command {
            None => Action::Leave(Exit::Shutdown),
            Some(Command::Subscribe(names)) => {
                add_all(&mut self.active, &names);
                self.frame_id = self.frame_id + 1;
                let frame = streams::control_frame("SUBSCRIBE", names.as_slice(), self.frame_id);
                Action::Write { frame, otherwise: "subscribe write failed" }
            },
            Some(Command::Unsubscribe(names)) => {
                remove_all(&mut self.active, &names);
                self.frame_id = self.frame_id + 1;
                let frame = streams::control_frame("UNSUBSCRIBE", names.as_slice(), self.frame_id);
                Action::Write { frame, otherwise: "unsubscribe write failed" }
            },
        }
    }

    /// What to do about a frame once it is decoded.
    pub fn on_decoded(&mut self, frame: Option<Decoded>, now: Timestamp) -> (r: Vec<Action>)
        requires
            old(self).wf(),
            now.0 >= 0,
        ensures
            final(self).wf(),
            handled(old(self)@, frame, now, final(self)@, views(r@)),
            final(self)@.active == old(self)@.active,
    {
        match frame {
            Some(Decoded::Trade(trade)) => self.on_trade(trade, now),
            Some(Decoded::Delta(delta)) => self.on_delta(delta, now),
            None => none(),
        }
    }

    fn on_trade(&mut self, trade: PublicTrade, now: Timestamp) -> (r: Vec<Action>)
        requires
            old(self).wf(),
        ensures
            final(self).wf(),
            final(self)@ == old(self)@.after_trade(trade),
            views(r@) == old(self)@.on_trade(trade, now),
    {
        let mut r: Vec<Action> = Vec::new();
        match self.candles.try_on_trade(&trade) {
            None => {
                r.push(Action::Overflow);
            },
            Some(update) => {
                match update {
                    Update::Formed(c) => {
                        r.push(Action::Publish(Event::market(now, MarketEvent::Candle(c))));
                    },
                    Update::Closed { closed, opened } => {
                        r.push(Action::Publish(Event::market(now, MarketEvent::Candle(closed))));
                        r.push(Action::Publish(Event::market(now, MarketEvent::Candle(opened))));
                    },
                    Update::Ignored => {},
                }
                r.push(Action::Publish(Event::market(now, MarketEvent::Trade(trade))));
            },
        }
        assert(views(r@) =~= old(self)@.on_trade(trade, now));
        r
    }

    /// Feed one book update through the maintainer, forwarding only what is safe to forward.
    fn on_delta(&mut self, delta: BookDelta, now: Timestamp) -> (r: Vec<Action>)
        requires
            old(self).wf(),
            now.0 >= 0,
        ensures
            final(self).wf(),
            final(self)@ == old(self)@.after_delta(delta@, now),
            views(r@) == old(self)@.on_delta(delta@, now),
    {
        let key = delta.symbol.key();
        let mut r: Vec<Action> = Vec::new();
        let ghost entry = self@.books.entry(delta.symbol@);
        let outcome = self.books.on_delta(delta.clone(), now);
        proof {
            assert(self.past()) by {
                assert forall|k: Seq<char>| #[trigger]
                    self.books@.entries.contains_key(k) implies self.books@.entries[k].updated_at.0
                    >= 0 && (self.books@.entries[k].requested_at matches Some(at) ==> at.0 >= 0) by {
                    if k != key@ {
                        assert(old(self).books@.entries.contains_key(k));
                    }
                }
            }
        }
        if outcome.attached {
            // The book only just became usable; consumers have no copy to update.
            if let Some(book) = self.books.book(key.as_str()) {
                let book = book.clone();
                r.push(Action::Publish(Event::market(now, MarketEvent::BookSnapshot(book))));
            }
        } else if outcome.forward {
            r.push(Action::Publish(Event::market(now, MarketEvent::BookDelta(delta))));
        }
        if let Need::Snapshot(symbol) = outcome.need {
            let mut reason = "rebuilding book for ".to_owned();
            reason.append(symbol.key().as_str());
            r.push(
                Action::Publish(Event::connection(now, ConnectionEvent::Resyncing { reason })),
            );
            r.push(Action::Fetch { symbol, depth: SNAPSHOT_DEPTH });
        }
        assert(views(r@) =~= old(self)@.on_delta(delta@, now));
        r
    }

    fn install(&mut self, snapshot: OrderBook, now: Timestamp) -> (r: Vec<Action>)
        requires
            old(self).wf(),
            now.0 >= 0,
        ensures
            final(self).wf(),
            installed(old(self)@, snapshot, now, final(self)@, views(r@)),
    {
        let mut r: Vec<Action> = Vec::new();
        let ghost key = snapshot.symbol->0@.key();
        let ghost snap = snapshot;
        if let Some(joined) = self.books.install_snapshot(snapshot, now) {
            r.push(Action::Publish(Event::market(now, MarketEvent::BookSnapshot(joined))));
        }
        proof {
            assert(self.past()) by {
                assert forall|k: Seq<char>| #[trigger]
                    self.books@.entries.contains_key(k) implies self.books@.entries[k].updated_at.0
                    >= 0 && (self.books@.entries[k].requested_at matches Some(at) ==> at.0 >= 0) by {
                    assert(old(self).books@.entries.contains_key(k));
                }
            }
            let book = books::replayed(snap@, old(self)@.books.entries[key].buffered);
            assert(views(r@) =~= if r@.len() > 0 {
                seq![published(now, PayloadView::BookSnapshot(book->0))]
            } else {
                Seq::empty()
            });
        }
        r
    }

    fn report_frozen(&self, now: Timestamp) -> (r: Vec<Action>)
        requires
            self.wf(),
            now.0 >= 0,
        ensures
            views(r@) == ConnectorView::on_frozen(
                self@.books.frozen(self.book_order(), now, STALE_AFTER_MS),
                now,
            ),
    {
        let frozen = self.books.stale(now, STALE_AFTER_MS);
        let ghost symbols = frozen@.map_values(|s: Symbol| s@);
        let mut r: Vec<Action> = Vec::new();
        let mut i: usize = 0;
        assert(views(r@) =~= ConnectorView::on_frozen(symbols.take(0), now));
        while i < frozen.len()
            invariant
                i <= frozen@.len(),
                symbols == frozen@.map_values(|s: Symbol| s@),
                views(r@) == ConnectorView::on_frozen(symbols.take(i as int), now),
            decreases frozen@.len() - i,
        {
            // The socket is up and other streams may be fine, so say which book froze.
            let mut reason = frozen[i].key();
            reason.append(" has not updated in 30s");
            let ghost before = r@;
            let action = Action::Publish(
                Event::connection(now, ConnectionEvent::Resyncing { reason }),
            );
            r.push(action);
            i += 1;
            proof {
                lemma_views_push(before, action);
                assert(views(r@) =~= ConnectorView::on_frozen(symbols.take(i as int), now));
            }
        }
        assert(symbols.take(i as int) =~= symbols);
        r
    }
}

fn none() -> (r: Vec<Action>)
    ensures
        views(r@) == Seq::<ActionView>::empty(),
{
    let r: Vec<Action> = Vec::new();
    assert(views(r@) =~= Seq::<ActionView>::empty());
    r
}

fn one(action: Action) -> (r: Vec<Action>)
    ensures
        views(r@) == seq![action@],
{
    let mut r: Vec<Action> = Vec::new();
    r.push(action);
    assert(views(r@) =~= seq![action@]);
    r
}

fn add_all(names: &mut Table<()>, more: &Vec<String>)
    requires
        old(names).wf(),
    ensures
        final(names).wf(),
        forall|n: Seq<char>| #[trigger]
            final(names).order().contains(n) <==> old(names).order().contains(n) || table::texts(
                more@,
            ).contains(n),
{
    let ghost all = table::texts(more@);
    let mut i: usize = 0;
    proof {
        names.lemma_order();
    }
    while i < more.len()
        invariant
            names.wf(),
            i <= more@.len(),
            all == table::texts(more@),
            forall|n: Seq<char>| #[trigger]
                names@.contains_key(n) <==> old(names)@.contains_key(n) || all.take(
                    i as int,
                ).contains(n),
        decreases more@.len() - i,
    {
        let ghost before = names@;
        names.insert(more[i].clone(), ());
        i += 1;
        proof {
            let t = all.take(i as int);
            assert(t =~= all.take(i - 1).push(all[i - 1]));
            assert forall|n: Seq<char>| #[trigger]
                names@.contains_key(n) <==> old(names)@.contains_key(n) || t.contains(n) by {
                table::lemma_contains_push(all.take(i - 1), all[i - 1], n);
                assert(names@.contains_key(n) <==> before.contains_key(n) || n == all[i - 1]);
            }
        }
    }
    proof {
        assert(all.take(i as int) =~= all);
        names.lemma_order();
        old(names).lemma_order();
        assert forall|n: Seq<char>| #[trigger]
            names.order().contains(n) <==> old(names).order().contains(n) || all.contains(n) by {
            assert(names@.contains_key(n) <==> names.order().contains(n));
            assert(old(names)@.contains_key(n) <==> old(names).order().contains(n));
        }
    }
}

fn remove_all(names: &mut Table<()>, gone: &Vec<String>)
    requires
        old(names).wf(),
    ensures
        final(names).wf(),
        forall|n: Seq<char>| #[trigger]
            final(names).order().contains(n) <==> old(names).order().contains(n)
                && !table::texts(gone@).contains(n),
{
    let ghost all = table::texts(gone@);
    let mut i: usize = 0;
    while i < gone.len()
        invariant
            names.wf(),
            i <= gone@.len(),
            all == table::texts(gone@),
            forall|n: Seq<char>| #[trigger]
                names@.contains_key(n) <==> old(names)@.contains_key(n) && !all.take(
                    i as int,
                ).contains(n),
        decreases gone@.len() - i,
    {
        let ghost before = names@;
        let _ = names.remove(gone[i].as_str());
        i += 1;
        proof {
            let t = all.take(i as int);
            assert(t =~= all.take(i - 1).push(all[i - 1]));
            assert forall|n: Seq<char>| #[trigger]
                names@.contains_key(n) <==> old(names)@.contains_key(n) && !t.contains(n) by {
                table::lemma_contains_push(all.take(i - 1), all[i - 1], n);
                assert(names@.contains_key(n) <==> before.contains_key(n) && n != all[i - 1]);
            }
        }
    }
    proof {
        assert(all.take(i as int) =~= all);
        names.lemma_order();
        old(names).lemma_order();
        assert forall|n: Seq<char>| #[trigger]
            names.order().contains(n) <==> old(names).order().contains(n) && !all.contains(n) by {
            assert(names@.contains_key(n) <==> names.order().contains(n));
            assert(old(names)@.contains_key(n) <==> old(names).order().contains(n));
        }
    }
}

} // verus!

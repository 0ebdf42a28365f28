//! The terminal's connection to a core.
//!
//! A screen must never block, so the socket lives elsewhere and the screen reads what was last
//! published. What is published, and what is said to the core, is decided here: [`Feed::step`]
//! takes what happened and says what to do.

use crate::domain::event::{ConnectionEvent, Event, EventView, MarketEvent, Payload, PayloadView};
use crate::domain::ids::SymbolView;
use crate::domain::market::{ApplyOutcome, BookDeltaView, OrderBook, OrderBookView};
use crate::exchange::error::Subscription;
use crate::service::session::{ClientMsg, ErrorCode, ServerMsg, PROTOCOL_VERSION};
use crate::service::state::MarketStateView;
use crate::table;
use crate::table::Table;
use vstd::prelude::*;

verus! {

/// How long to wait before connecting again, in milliseconds.
pub const RECONNECT_DELAY: u64 = 2_000;

#[derive(Debug, PartialEq, Eq)]
pub enum Status {
    Connecting,
    Live,
    /// The core refused us. Retrying would not help.
    Refused(String),
    Lost(String),
}

/// What a [`Status`] says.
pub enum StatusView {
    Connecting,
    Live,
    Refused(Seq<char>),
    Lost(Seq<char>),
}

impl View for Status {
    type V = StatusView;

    open spec fn view(&self) -> StatusView {
        match self {
            Status::Connecting => StatusView::Connecting,
            Status::Live => StatusView::Live,
            Status::Refused(why) => StatusView::Refused(why@),
            Status::Lost(why) => StatusView::Lost(why@),
        }
    }
}

impl StatusView {
    pub open spec fn label(self) -> Seq<char> {
        match self {
            StatusView::Connecting => "connecting"@,
            StatusView::Live => "live"@,
            StatusView::Refused(why) => "refused: "@ + why,
            StatusView::Lost(why) => "reconnecting: "@ + why,
        }
    }
}

impl Status {
    pub fn label(&self) -> (r: String)
        ensures
            r@ == self@.label(),
    {
        match self {
            Status::Connecting => "connecting".to_owned(),
            Status::Live => "live".to_owned(),
            Status::Refused(why) => {
                let mut r = "refused: ".to_owned();
                r.append(why.as_str());
                r
            },
            Status::Lost(why) => {
                let mut r = "reconnecting: ".to_owned();
                r.append(why.as_str());
                r
            },
        }
    }

    pub fn is_live(&self) -> (r: bool)
        ensures
            r == (self@ is Live),
    {
        match self {
            Status::Live => true,
            _ => false,
        }
    }
}

/// What the screen reads. Walked in text order, so that row order never jumps between frames.
pub struct FeedState {
    status: Status,
    books: Table<OrderBook>,
    trades: Table<u64>,
    core_note: Option<String>,
}

/// What a [`FeedState`] holds, by the key of the instrument.
#[verifier::ext_equal]
pub struct FeedStateView {
    pub status: StatusView,
    pub books: Map<Seq<char>, OrderBookView>,
    pub trades: Map<Seq<char>, u64>,
    /// Last thing the core said about its own health.
    pub core_note: Option<Seq<char>>,
}

impl View for FeedState {
    type V = FeedStateView;

    closed spec fn view(&self) -> FeedStateView {
        FeedStateView {
            status: self.status@,
            books: self.books@.map_values(|b: OrderBook| b@),
            trades: self.trades@,
            core_note: match self.core_note {
                Some(note) => Some(note@),
                None => None,
            },
        }
    }
}

/// What is noted of an instrument whose book has drifted from the core's.
pub open spec fn desynced(symbol: SymbolView) -> Seq<char> {
    symbol.key() + " desynced, waiting for a snapshot"@
}

impl FeedStateView {
    /// How many trades an instrument had.
    pub open spec fn traded(self, key: Seq<char>) -> u64 {
        if self.trades.contains_key(key) {
            self.trades[key]
        } else {
            0
        }
    }

    /// The core forwards only updates that chain, so one that does not means that our copy has
    /// drifted. It is dropped until the next snapshot rather than drawn.
    pub open spec fn after_delta(self, delta: BookDeltaView) -> FeedStateView {
        let key = delta.symbol.key();
        if !self.books.contains_key(key) {
            self
        } else if self.books[key].outcome(delta) is Gap {
            FeedStateView {
                books: self.books.remove(key),
                core_note: Some(desynced(delta.symbol)),
                ..self
            }
        } else {
            FeedStateView { books: self.books.insert(key, self.books[key].after(delta)), ..self }
        }
    }

    /// What the screen reads after an event.
    pub open spec fn after(self, event: EventView) -> FeedStateView {
        match event.payload {
            PayloadView::BookSnapshot(b) => match b.symbol {
                Some(s) => FeedStateView { books: self.books.insert(s.key(), b), ..self },
                None => self,
            },
            PayloadView::BookDelta(d) => self.after_delta(d),
            PayloadView::Trade(t) => FeedStateView {
                trades: self.trades.insert(
                    t.symbol@.key(),
                    (self.traded(t.symbol@.key()) + 1) as u64,
                ),
                ..self
            },
            PayloadView::Resyncing(reason) => FeedStateView { core_note: Some(reason), ..self },
            PayloadView::Ready => FeedStateView { core_note: None, ..self },
            PayloadView::Disconnected(reason) => FeedStateView {
                core_note: Some("core lost its venue feed: "@ + reason),
                ..self
            },
            _ => self,
        }
    }

    /// Whether the trade counter can take an event.
    pub open spec fn counts(self, event: EventView) -> bool {
        event.payload matches PayloadView::Trade(t) ==> self.traded(t.symbol@.key()) < u64::MAX
    }
}

/// A book that disagrees with the core is not shown: after an update that does not chain there is
/// none, until the next snapshot, and the screen says so.
pub proof fn a_desynced_book_is_not_drawn(
    state: FeedStateView,
    event: EventView,
    delta: BookDeltaView,
)
    requires
        event.payload == PayloadView::BookDelta(delta),
        state.books.contains_key(delta.symbol.key()),
        state.books[delta.symbol.key()].outcome(delta) is Gap,
    ensures
        !state.after(event).books.contains_key(delta.symbol.key()),
        state.after(event).core_note == Some(desynced(delta.symbol)),
{
}

/// The terminal's book is the core's: an update that the core could chain leaves the terminal with
/// the same book as the core, if it had the same book before.
pub proof fn the_terminal_follows_the_core(
    state: FeedStateView,
    event: EventView,
    delta: BookDeltaView,
    core: OrderBookView,
)
    requires
        event.payload == PayloadView::BookDelta(delta),
        state.books.contains_key(delta.symbol.key()),
        state.books[delta.symbol.key()] == core,
        !(core.outcome(delta) is Gap),
    ensures
        state.after(event).books[delta.symbol.key()] == core.after(delta),
{
}

/// Screen and core read one stream alike: where both have the same book of an instrument, or
/// neither has one, the same is true after any event.
pub proof fn one_stream_makes_one_book(
    screen: FeedStateView,
    core: MarketStateView,
    event: EventView,
    key: Seq<char>,
)
    requires
        screen.books.contains_key(key) == core.books.contains_key(key),
        screen.books.contains_key(key) ==> screen.books[key] == core.books[key],
    ensures
        screen.after(event).books.contains_key(key) == core.after(event).books.contains_key(key),
        screen.after(event).books.contains_key(key) ==> screen.after(event).books[key]
            == core.after(event).books[key],
{
}

/// What the screen reads after events, in order.
pub open spec fn read_after(state: FeedStateView, events: Seq<EventView>) -> FeedStateView
    decreases events.len(),
{
    if events.len() == 0 {
        state
    } else {
        read_after(state, events.drop_last()).after(events.last())
    }
}

/// The trades shown of an instrument are as many as came in of it, whatever else did.
pub proof fn every_print_is_counted(state: FeedStateView, events: Seq<EventView>, key: Seq<char>)
    requires
        state.traded(key) + events.len() <= u64::MAX,
    ensures
        !state.trades.contains_key(key) ==> state.traded(key) == 0,
        read_after(state, events).traded(key) == state.traded(key) + events.filter(
            |e: EventView|
                e.payload is Trade && e.payload->Trade_0.symbol@.key() == key,
        ).len(),
        events.filter(
            |e: EventView|
                e.payload is Trade && e.payload->Trade_0.symbol@.key() == key,
        ).len() <= events.len(),
    decreases events.len(),
{
    reveal(Seq::filter);
    if events.len() > 0 {
        every_print_is_counted(state, events.drop_last(), key);
    }
}

/// The screen notes what the core last said of its own health: why it rebuilds or that it lost its
/// feed, and nothing more once it is ready.
pub proof fn the_note_is_the_last_word(state: FeedStateView, event: EventView)
    ensures
        event.payload matches PayloadView::Resyncing(why) ==> state.after(event).core_note == Some(
            why,
        ),
        event.payload is Ready ==> state.after(event).core_note is None,
        event.payload matches PayloadView::Disconnected(why) ==> state.after(event).core_note
            == Some("core lost its venue feed: "@ + why),
        !(event.payload is BookDelta) && !(event.payload is Resyncing) && !(event.payload is Ready)
            && !(event.payload is Disconnected) ==> state.after(event).core_note == state.core_note,
        !(event.payload is BookDelta) && !(event.payload is BookSnapshot) ==> state.after(event).books
            == state.books,
        state.after(event).status == state.status,
{
}

impl Default for FeedState {
    fn default() -> (r: Self)
        ensures
            r.wf(),
            r@ == (FeedStateView {
                status: StatusView::Connecting,
                books: Map::empty(),
                trades: Map::empty(),
                core_note: None,
            }),
    {
        let r = FeedState {
            status: Status::Connecting,
            books: Table::new(),
            trades: Table::new(),
            core_note: None,
        };
        assert(r@.books =~= Map::<Seq<char>, OrderBookView>::empty());
        r
    }
}

impl FeedState {
    pub closed spec fn wf(&self) -> bool {
        self.books.wf() && self.trades.wf()
    }

    /// The keys of the books, in text order.
    pub closed spec fn keys(&self) -> Seq<Seq<char>> {
        self.books.order()
    }

    /// The keys of the books are in text order, and are the keys of the books.
    pub proof fn lemma_keys(&self)
        requires
            self.wf(),
        ensures
            table::ascending(self.keys()),
            forall|k: Seq<char>| #[trigger] self@.books.contains_key(k) <==> self.keys().contains(k),
    {
        self.books.lemma_order();
        assert forall|k: Seq<char>| #[trigger]
            self@.books.contains_key(k) <==> self.keys().contains(k) by {
            assert(self.books@.contains_key(k) <==> self.books.order().contains(k));
        }
    }

    pub fn status(&self) -> (r: &Status)
        ensures
            r@ == self@.status,
    {
        &self.status
    }

    pub fn core_note(&self) -> (r: Option<&String>)
        ensures
            match r {
                Some(note) => self@.core_note == Some(note@),
                None => self@.core_note is None,
            },
    {
        match &self.core_note {
            Some(note) => Some(note),
            None => None,
        }
    }

    pub fn book(&self, key: &str) -> (r: Option<&OrderBook>)
        requires
            self.wf(),
        ensures
            match r {
                Some(book) => self@.books.contains_key(key@) && self@.books[key@] == book@,
                None => !self@.books.contains_key(key@),
            },
    {
        self.books.get(key)
    }

    pub fn trades(&self, key: &str) -> (r: u64)
        requires
            self.wf(),
        ensures
            r == self@.traded(key@),
    {
        match self.trades.get(key) {
            Some(n) => *n,
            None => 0,
        }
    }

    /// How many books there are.
    pub fn len(&self) -> (n: usize)
        requires
            self.wf(),
        ensures
            n == self.keys().len(),
    {
        self.books.len()
    }

    pub fn is_empty(&self) -> (r: bool)
        requires
            self.wf(),
        ensures
            r == (self.keys().len() == 0),
    {
        self.books.len() == 0
    }

    /// The key of a book, counted in text order.
    pub fn key_at(&self, i: usize) -> (k: &String)
        requires
            self.wf(),
            i < self.keys().len(),
        ensures
            k@ == self.keys()[i as int],
    {
        self.books.key_at(i)
    }

    /// Take one event in.
    pub fn apply(&mut self, event: Event)
        requires
            old(self).wf(),
            old(self)@.counts(event@),
        ensures
            final(self).wf(),
            final(self)@ == old(self)@.after(event@),
    {
        let ghost start = self@;
        match event.payload {
            Payload::Market(MarketEvent::BookSnapshot(book)) => {
                let key = match &book.symbol {
                    Some(symbol) => Some(symbol.key()),
                    None => None,
                };
                if let Some(key) = key {
                    let ghost k = key@;
                    let ghost b = book@;
                    self.books.insert(key, book);
                    assert(self@.books =~= start.books.insert(k, b));
                }
            },
            Payload::Market(MarketEvent::BookDelta(delta)) => {
                let key = delta.symbol.key();
                let mut torn: bool = false;
                if let Some(book) = self.books.get_mut(key.as_str()) {
                    if let ApplyOutcome::Gap { .. } = book.apply(&delta) {
                        torn = true;
                    }
                }
                if torn {
                    let _ = self.books.remove(key.as_str());
                    let mut note = key;
                    note.append(" desynced, waiting for a snapshot");
                    self.core_note = Some(note);
                }
                assert(self@.books =~= start.after_delta(delta@).books);
            },
            Payload::Market(MarketEvent::Trade(trade)) => {
                let key = trade.symbol.key();
                let n: u64 = self.trades(key.as_str());
                self.trades.insert(key, n + 1);
            },
            Payload::Connection(ConnectionEvent::Resyncing { reason }) => {
                self.core_note = Some(reason);
            },
            Payload::Connection(ConnectionEvent::Ready) => {
                self.core_note = None;
            },
            Payload::Connection(ConnectionEvent::Disconnected { reason }) => {
                let mut note = "core lost its venue feed: ".to_owned();
                note.append(reason.as_str());
                self.core_note = Some(note);
            },
            _ => {},
        }
    }
}

/// Something that happened to the feed.
pub enum Incoming {
    /// The socket is open.
    Connected,
    /// What was to be sent is sent.
    Sent,
    Message(ServerMsg),
    /// A frame that is no message: not worth dropping the connection over.
    Undecodable,
    /// Any other frame.
    Other,
    /// The core closed the connection.
    Closed,
    /// The connection could not be made or broke.
    Broken(String),
    /// What was to be sent could not be put into a frame.
    Unsendable(String),
    /// The wait is over.
    Rested,
}

/// What to do next.
#[derive(Debug, PartialEq, Eq)]
pub enum Outgoing {
    Connect,
    Send(ClientMsg),
    Receive,
    /// Wait for [`RECONNECT_DELAY`].
    Rest,
    Stop,
}

/// The client's side of the protocol.
pub struct Feed {
    state: FeedState,
    token: String,
    subs: Vec<Subscription>,
    subscribing: bool,
}

/// What a [`Feed`] holds.
#[verifier::ext_equal]
pub struct FeedView {
    pub state: FeedStateView,
    pub token: Seq<char>,
    pub subs: Seq<Subscription>,
    /// Whether the subscriptions are on their way.
    pub subscribing: bool,
}

impl View for Feed {
    type V = FeedView;

    closed spec fn view(&self) -> FeedView {
        FeedView {
            state: self.state@,
            token: self.token@,
            subs: self.subs@,
            subscribing: self.subscribing,
        }
    }
}

/// What is shown of a refusal.
pub open spec fn refusal(code: ErrorCode, message: Seq<char>) -> Seq<char> {
    code.text() + ": "@ + message
}

impl FeedView {
    pub open spec fn with_status(self, status: StatusView) -> FeedView {
        FeedView { state: FeedStateView { status, ..self.state }, ..self }
    }

    /// The connection is gone. Books from it describe a stream that no longer exists.
    pub open spec fn lost(self, why: Seq<char>) -> FeedView {
        FeedView {
            state: FeedStateView {
                status: StatusView::Lost(why),
                books: Map::empty(),
                ..self.state
            },
            subscribing: false,
            ..self
        }
    }

    /// The feed after something happened to it.
    pub open spec fn after(self, input: Incoming) -> FeedView {
        match input {
            Incoming::Connected => self,
            Incoming::Sent => if self.subscribing {
                FeedView { subscribing: false, ..self.with_status(StatusView::Live) }
            } else {
                self
            },
            Incoming::Message(msg) => match msg {
                ServerMsg::Welcome { .. } => FeedView { subscribing: true, ..self },
                ServerMsg::Failed { code, message } => if code.fatal() {
                    self.with_status(StatusView::Refused(refusal(code, message@)))
                } else {
                    self.lost(refusal(code, message@))
                },
                ServerMsg::Pong(_) => self,
                ServerMsg::Event(event) => FeedView { state: self.state.after(event@), ..self },
            },
            Incoming::Undecodable => self,
            Incoming::Other => self,
            Incoming::Closed => self.lost("core closed the connection"@),
            Incoming::Broken(why) => self.lost(why@),
            Incoming::Unsendable(why) => self.with_status(StatusView::Refused(why@)),
            Incoming::Rested => self.with_status(StatusView::Connecting),
        }
    }

    /// Whether an action is what something that happened calls for.
    pub open spec fn calls_for(self, input: Incoming, action: Outgoing) -> bool {
        match input {
            Incoming::Connected => action matches Outgoing::Send(
                ClientMsg::Hello { protocol, token },
            ) && protocol == PROTOCOL_VERSION && token@ == self.token,
            Incoming::Message(msg) => match msg {
                ServerMsg::Welcome { .. } => action matches Outgoing::Send(
                    ClientMsg::Subscribe(subs),
                ) && subs@ == self.subs,
                ServerMsg::Failed { code, .. } => if code.fatal() {
                    action is Stop
                } else {
                    action is Rest
                },
                ServerMsg::Pong(_) => action is Receive,
                ServerMsg::Event(_) => action is Receive,
            },
            Incoming::Sent => action is Receive,
            Incoming::Undecodable => action is Receive,
            Incoming::Other => action is Receive,
            Incoming::Closed => action is Rest,
            Incoming::Broken(_) => action is Rest,
            Incoming::Unsendable(_) => action is Stop,
            Incoming::Rested => action is Connect,
        }
    }

    /// Whether the trade counter can take what happened.
    pub open spec fn counts(self, input: Incoming) -> bool {
        input matches Incoming::Message(ServerMsg::Event(event)) ==> self.state.counts(event@)
    }
}

/// A rejected token is rejected again: after a refusal that will not change the feed stops, and
/// says that it was refused.
pub proof fn a_refusal_is_final(feed: FeedView, code: ErrorCode, message: String, action: Outgoing)
    requires
        code == ErrorCode::Unauthorized || code == ErrorCode::ProtocolMismatch,
        feed.calls_for(Incoming::Message(ServerMsg::Failed { code, message }), action),
    ensures
        action is Stop,
        feed.after(Incoming::Message(ServerMsg::Failed { code, message })).state.status
            == StatusView::Refused(code.text() + ": "@ + message@),
{
}

/// However a connection ends, no book of it is left to be drawn, and another connection is made.
pub proof fn no_book_outlives_its_connection(feed: FeedView, input: Incoming, action: Outgoing)
    requires
        feed.calls_for(input, action),
        action is Rest,
    ensures
        feed.after(input).state.books == Map::<Seq<char>, OrderBookView>::empty(),
        feed.after(input).state.status is Lost,
        forall|next: Outgoing|
            feed.after(input).calls_for(Incoming::Rested, next) ==> next is Connect,
{
}

/// The screen says live only after the subscriptions have gone out.
pub proof fn live_means_subscribed(feed: FeedView, input: Incoming)
    requires
        !(feed.state.status is Live),
        feed.after(input).state.status is Live,
    ensures
        feed.subscribing,
        input is Sent,
{
    if let Incoming::Message(ServerMsg::Event(event)) = input {
        assert(feed.state.after(event@).status == feed.state.status);
    }
}

/// The first thing said is the version and the token, and what is asked for once welcomed is all
/// that was wanted.
pub proof fn a_feed_introduces_itself(feed: FeedView, protocol: u32, action: Outgoing)
    ensures
        feed.calls_for(Incoming::Connected, action) ==> (action matches Outgoing::Send(
            ClientMsg::Hello { protocol: spoken, token },
        ) && spoken == 1 && token@ == feed.token),
        feed.calls_for(Incoming::Message(ServerMsg::Welcome { protocol }), action) ==> (
        action matches Outgoing::Send(ClientMsg::Subscribe(subs)) && subs@ == feed.subs),
        feed.after(Incoming::Message(ServerMsg::Welcome { protocol })).after(
            Incoming::Sent,
        ).state.status is Live,
        feed.after(Incoming::Connected) == feed,
{
}

/// Whatever happens, the token and what is wanted stay.
pub proof fn a_feed_keeps_its_mind(feed: FeedView, input: Incoming)
    ensures
        feed.after(input).token == feed.token,
        feed.after(input).subs == feed.subs,
        input is Undecodable || input is Other ==> feed.after(input) == feed,
        input is Closed || input is Broken ==> feed.after(input).state.status is Lost
            && feed.after(input).state.books == Map::<Seq<char>, OrderBookView>::empty()
            && feed.after(input).state.trades == feed.state.trades,
        input matches Incoming::Broken(why) ==> feed.after(input).state.status == StatusView::Lost(
            why@,
        ),
{
}

impl Feed {
    pub fn new(token: String, subs: Vec<Subscription>) -> (f: Feed)
        ensures
            f.wf(),
            f@ == (FeedView {
                state: FeedStateView {
                    status: StatusView::Connecting,
                    books: Map::empty(),
                    trades: Map::empty(),
                    core_note: None,
                },
                token: token@,
                subs: subs@,
                subscribing: false,
            }),
    {
        Feed { state: FeedState::default(), token, subs, subscribing: false }
    }

    pub closed spec fn wf(&self) -> bool {
        self.state.wf()
    }

    /// What the screen reads.
    pub fn snapshot(&self) -> (r: &FeedState)
        requires
            self.wf(),
        ensures
            r.wf(),
            r@ == self@.state,
    {
        &self.state
    }

    /// What to do about something that happened.
    pub fn step(&mut self, input: Incoming) -> (action: Outgoing)
        requires
            old(self).wf(),
            old(self)@.counts(input),
        ensures
            final(self).wf(),
            final(self)@ == old(self)@.after(input),
            old(self)@.calls_for(input, action),
    {
        match input {
            Incoming::Connected => Outgoing::Send(
                ClientMsg::Hello { protocol: PROTOCOL_VERSION, token: self.token.clone() },
            ),
            Incoming::Sent => {
                if self.subscribing {
                    self.subscribing = false;
                    self.state.status = Status::Live;
                }
                Outgoing::Receive
            },
            Incoming::Message(msg) => match msg {
                ServerMsg::Welcome { .. } => {
                    self.subscribing = true;
                    Outgoing::Send(ClientMsg::Subscribe(copy_subscriptions(&self.subs)))
                },
                ServerMsg::Failed { code, message } => {
                    let mut why = code.as_str().to_owned();
                    why.append(": ");
                    why.append(message.as_str());
                    if code.is_fatal() {
                        self.state.status = Status::Refused(why);
                        Outgoing::Stop
                    } else {
                        self.lose(why);
                        Outgoing::Rest
                    }
                },
                ServerMsg::Pong(_) => Outgoing::Receive,
                ServerMsg::Event(event) => {
                    self.state.apply(event);
                    Outgoing::Receive
                },
            },
            Incoming::Undecodable => Outgoing::Receive,
            Incoming::Other => Outgoing::Receive,
            Incoming::Closed => {
                self.lose("core closed the connection".to_owned());
                Outgoing::Rest
            },
            Incoming::Broken(why) => {
                self.lose(why);
                Outgoing::Rest
            },
            Incoming::Unsendable(why) => {
                self.state.status = Status::Refused(why);
                Outgoing::Stop
            },
            Incoming::Rested => {
                self.state.status = Status::Connecting;
                Outgoing::Connect
            },
        }
    }

    fn lose(&mut self, why: String)
        requires
            old(self).wf(),
        ensures
            final(self).wf(),
            final(self)@ == old(self)@.lost(why@),
    {
        self.state.status = Status::Lost(why);
        self.state.books.clear();
        self.subscribing = false;
        assert(self@.state.books =~= Map::<Seq<char>, OrderBookView>::empty());
    }
}

fn copy_subscriptions(subs: &Vec<Subscription>) -> (r: Vec<Subscription>)
    ensures
        r@ == subs@,
{
    let mut r: Vec<Subscription> = Vec::new();
    let mut i: usize = 0;
    while i < subs.len()
        invariant
            i <= subs@.len(),
            r@ == subs@.take(i as int),
        decreases subs@.len() - i,
    {
        r.push(subs[i].clone());
        i += 1;
        assert(subs@.take(i as int) =~= subs@.take(i - 1).push(subs@[i - 1]));
    }
    assert(subs@.take(i as int) =~= subs@);
    r
}

} // verus!

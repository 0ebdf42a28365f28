//! One terminal's session: what it may say, what it is answered, and what it receives.
//!
//! Nothing here touches a socket. A frame comes in or an event is broadcast, [`Terminal::step`]
//! says what to send, and whoever holds the socket sends it.

use crate::decimal;
use crate::domain::event::{ConnectionEvent, Event, EventView, MarketEvent, Payload, PayloadView};
use crate::domain::ids::SymbolView;
use crate::domain::market::{Candle, OrderBook, OrderBookView, PublicTrade};
use crate::domain::time::Timestamp;
use crate::exchange::error::Subscription;
use crate::service::state;
use crate::service::state::{MarketState, MarketStateView};
use crate::text;
use vstd::prelude::*;

verus! {

/// The version of the protocol between the core and its terminals.
pub const PROTOCOL_VERSION: u32 = 1;

/// What a terminal says.
#[derive(Debug, PartialEq, Eq)]
pub enum ClientMsg {
    /// The first thing to say: the version spoken, and the token.
    Hello { protocol: u32, token: String },
    Subscribe(Vec<Subscription>),
    Ping(u64),
}

/// Why something a terminal said was refused.
#[derive(Clone, Copy, Debug, PartialEq, Eq, Structural)]
pub enum ErrorCode {
    ProtocolMismatch,
    Unauthorized,
    NotAuthenticated,
    Malformed,
}

impl ErrorCode {
    /// Whether the same terminal would be refused again.
    pub open spec fn fatal(self) -> bool {
        self is ProtocolMismatch || self is Unauthorized
    }

    pub open spec fn text(self) -> Seq<char> {
        match self {
            ErrorCode::ProtocolMismatch => "ProtocolMismatch"@,
            ErrorCode::Unauthorized => "Unauthorized"@,
            ErrorCode::NotAuthenticated => "NotAuthenticated"@,
            ErrorCode::Malformed => "Malformed"@,
        }
    }

    pub fn is_fatal(self) -> (r: bool)
        ensures
            r == self.fatal(),
            r == (self == ErrorCode::ProtocolMismatch || self == ErrorCode::Unauthorized),
    {
        match self {
            ErrorCode::ProtocolMismatch => true,
            ErrorCode::Unauthorized => true,
            ErrorCode::NotAuthenticated => false,
            ErrorCode::Malformed => false,
        }
    }

    pub fn as_str(self) -> (r: &'static str)
        ensures
            r@ == self.text(),
    {
        match self {
            ErrorCode::ProtocolMismatch => "ProtocolMismatch",
            ErrorCode::Unauthorized => "Unauthorized",
            ErrorCode::NotAuthenticated => "NotAuthenticated",
            ErrorCode::Malformed => "Malformed",
        }
    }
}

/// What the core says.
#[derive(Debug, PartialEq, Eq)]
pub enum ServerMsg {
    Welcome { protocol: u32 },
    Failed { code: ErrorCode, message: String },
    Pong(u64),
    Event(Event),
}

/// What a [`ServerMsg`] says.
pub enum ServerMsgView {
    Welcome(u32),
    Failed(ErrorCode, Seq<char>),
    Pong(u64),
    Event(EventView),
}

impl View for ServerMsg {
    type V = ServerMsgView;

    open spec fn view(&self) -> ServerMsgView {
        match self {
            ServerMsg::Welcome { protocol } => ServerMsgView::Welcome(*protocol),
            ServerMsg::Failed { code, message } => ServerMsgView::Failed(*code, message@),
            ServerMsg::Pong(n) => ServerMsgView::Pong(*n),
            ServerMsg::Event(e) => ServerMsgView::Event(e@),
        }
    }
}

/// The token that lets a terminal in.
pub struct Auth {
    token: String,
}

impl Auth {
    pub closed spec fn expected(&self) -> Seq<char> {
        self.token@
    }

    pub fn new(token: &str) -> (r: Auth)
        ensures
            r.expected() == token@,
    {
        Auth { token: token.to_owned() }
    }

    pub fn accepts(&self, token: &str) -> (r: bool)
        ensures
            r == (token@ == self.expected()),
    {
        text::same(token, self.token.as_str())
    }
}

/// The answer to one message, and whether the session ends with it.
#[derive(Debug, PartialEq, Eq)]
pub struct Reaction {
    pub reply: ServerMsg,
    pub close: bool,
}

/// Who a terminal has shown itself to be, and what it asked for.
pub struct Session {
    authenticated: bool,
    subscriptions: Vec<Subscription>,
}

/// What a [`Session`] holds.
#[verifier::ext_equal]
pub struct SessionView {
    pub authenticated: bool,
    pub subscriptions: Seq<Subscription>,
}

impl View for Session {
    type V = SessionView;

    closed spec fn view(&self) -> SessionView {
        SessionView { authenticated: self.authenticated, subscriptions: self.subscriptions@ }
    }
}

impl SessionView {
    /// The answer to a message.
    ///
    /// The version is checked before the token, so that a peer that cannot parse the reply is
    /// not also told that its token was fine. Anything but a greeting takes one first.
    pub open spec fn reply(self, msg: ClientMsg, token: Seq<char>) -> ServerMsgView {
        match msg {
            ClientMsg::Hello { protocol, token: theirs } => if protocol != PROTOCOL_VERSION {
                ServerMsgView::Failed(
                    ErrorCode::ProtocolMismatch,
                    "this core speaks another protocol version"@,
                )
            } else if theirs@ != token {
                ServerMsgView::Failed(ErrorCode::Unauthorized, "token not accepted"@)
            } else {
                ServerMsgView::Welcome(PROTOCOL_VERSION)
            },
            ClientMsg::Subscribe(_) => if self.authenticated {
                ServerMsgView::Pong(0)
            } else {
                ServerMsgView::Failed(ErrorCode::NotAuthenticated, "say hello first"@)
            },
            ClientMsg::Ping(n) => if self.authenticated {
                ServerMsgView::Pong(n)
            } else {
                ServerMsgView::Failed(ErrorCode::NotAuthenticated, "say hello first"@)
            },
        }
    }

    /// Whether a message ends the session: every refusal does.
    pub open spec fn ends(self, msg: ClientMsg, token: Seq<char>) -> bool {
        self.reply(msg, token) is Failed
    }

    /// The session after a message. A refusal changes nothing.
    pub open spec fn after(self, msg: ClientMsg, token: Seq<char>) -> SessionView {
        if self.ends(msg, token) {
            self
        } else {
            match msg {
                ClientMsg::Hello { .. } => SessionView { authenticated: true, ..self },
                ClientMsg::Subscribe(subs) => SessionView {
                    subscriptions: self.subscriptions + subs@,
                    ..self
                },
                ClientMsg::Ping(_) => self,
            }
        }
    }

    /// Whether an instrument is subscribed to.
    pub open spec fn follows(self, symbol: SymbolView) -> bool {
        exists|i: int|
            0 <= i < self.subscriptions.len() && #[trigger] self.subscriptions[i].concerns()@
                == symbol
    }

    /// Whether an event is for this session. Nothing is, before the greeting. After it, market
    /// events go by subscription where they concern one instrument, and everything else is for
    /// everyone.
    pub open spec fn wants(self, event: Event) -> bool {
        self.authenticated && match event.payload {
            Payload::Market(m) => match m.concerns() {
                Some(s) => self.follows(s@),
                None => true,
            },
            Payload::Account(_) => true,
            Payload::Connection(_) => true,
        }
    }
}

/// Private data never reaches a session that has not shown the token.
pub proof fn private_data_takes_the_token(session: SessionView, event: Event)
    requires
        event.payload is Account,
        session.wants(event),
    ensures
        session.authenticated,
{
}

/// Whatever is said, a session becomes authenticated only by a greeting with the right version
/// and the right token.
pub proof fn only_the_token_authenticates(session: SessionView, msg: ClientMsg, token: Seq<char>)
    requires
        !session.authenticated,
        session.after(msg, token).authenticated,
    ensures
        msg matches ClientMsg::Hello { protocol, token: theirs } && protocol == PROTOCOL_VERSION
            && theirs@ == token,
{
}

/// Before the greeting nothing but the greeting is answered with anything but a refusal, and a
/// refusal ends the session.
pub proof fn a_refusal_ends_the_session(session: SessionView, msg: ClientMsg, token: Seq<char>)
    requires
        !session.authenticated,
        !(msg is Hello),
    ensures
        session.reply(msg, token) matches ServerMsgView::Failed(code, _) && code
            == ErrorCode::NotAuthenticated,
        session.ends(msg, token),
        session.after(msg, token) == session,
{
}

/// A greeting is welcomed exactly where it has the version and the token, and only the version is
/// looked at where that is another: what else is said of the token a stranger never learns.
pub proof fn a_greeting_takes_both(
    session: SessionView,
    msg: ClientMsg,
    protocol: u32,
    theirs: String,
    token: Seq<char>,
)
    requires
        msg == (ClientMsg::Hello { protocol, token: theirs }),
    ensures
        protocol == 1 && theirs@ == token ==> {
            &&& session.reply(msg, token) == ServerMsgView::Welcome(1)
            &&& !session.ends(msg, token)
            &&& session.after(msg, token).authenticated
        },
        protocol == 1 && theirs@ != token ==> {
            &&& session.reply(msg, token) == ServerMsgView::Failed(
                ErrorCode::Unauthorized,
                "token not accepted"@,
            )
            &&& session.ends(msg, token)
            &&& session.after(msg, token) == session
        },
        protocol != 1 ==> {
            &&& session.reply(msg, token) == ServerMsgView::Failed(
                ErrorCode::ProtocolMismatch,
                "this core speaks another protocol version"@,
            )
            &&& session.ends(msg, token)
            &&& session.after(msg, token) == session
        },
        session.after(msg, token).subscriptions == session.subscriptions,
{
}

/// Once greeted, a terminal follows what it followed and what it now asked for, all of it and
/// nothing more.
pub proof fn subscriptions_add_up(
    session: SessionView,
    subs: Vec<Subscription>,
    token: Seq<char>,
    symbol: SymbolView,
)
    requires
        session.authenticated,
    ensures
        ({
            let after = session.after(ClientMsg::Subscribe(subs), token);
            &&& after.authenticated
            &&& after.follows(symbol) <==> session.follows(symbol) || exists|i: int|
                0 <= i < subs@.len() && (#[trigger] subs@[i]).concerns()@ == symbol
            &&& !session.ends(ClientMsg::Subscribe(subs), token)
            &&& session.reply(ClientMsg::Subscribe(subs), token) == ServerMsgView::Pong(0)
        }),
{
    let all = session.subscriptions + subs@;
    let after = session.after(ClientMsg::Subscribe(subs), token);
    assert(after.subscriptions == all);
    if session.follows(symbol) {
        let i = choose|i: int|
            0 <= i < session.subscriptions.len() && #[trigger] session.subscriptions[i].concerns()@
                == symbol;
        assert(all[i].concerns()@ == symbol);
    }
    if exists|i: int| 0 <= i < subs@.len() && (#[trigger] subs@[i]).concerns()@ == symbol {
        let i = choose|i: int| 0 <= i < subs@.len() && (#[trigger] subs@[i]).concerns()@ == symbol;
        assert(all[session.subscriptions.len() + i].concerns()@ == symbol);
    }
    if after.follows(symbol) {
        let i = choose|i: int| 0 <= i < all.len() && #[trigger] all[i].concerns()@ == symbol;
        if i < session.subscriptions.len() {
            assert(session.subscriptions[i].concerns()@ == symbol);
        } else {
            assert(subs@[i - session.subscriptions.len()].concerns()@ == symbol);
        }
    }
}

/// A terminal is alive as often as it asks: once greeted, a ping comes back with its number, and
/// nothing changes.
pub proof fn a_ping_comes_back(session: SessionView, n: u64, token: Seq<char>)
    requires
        session.authenticated,
    ensures
        session.reply(ClientMsg::Ping(n), token) == ServerMsgView::Pong(n),
        session.after(ClientMsg::Ping(n), token) == session,
{
}

/// Once greeted, a terminal gets every private event and every connection event, and of the prints,
/// bars and book updates those of an instrument that one of its subscriptions concerns, whichever
/// that is, and no others.
pub proof fn events_go_to_who_asked(session: SessionView, event: Event, i: int)
    requires
        session.authenticated,
    ensures
        event.payload is Account || event.payload is Connection ==> session.wants(event),
        event.payload matches Payload::Market(MarketEvent::Instruments { .. }) ==> session.wants(
            event,
        ),
        event.payload matches Payload::Market(m) ==> {
            let of = match m {
                MarketEvent::Trade(t) => Some(t.symbol@),
                MarketEvent::Candle(c) => Some(c.symbol@),
                MarketEvent::BookDelta(d) => Some(d.symbol@),
                MarketEvent::BookSnapshot(b) => match b.symbol {
                    Some(s) => Some(s@),
                    None => None,
                },
                MarketEvent::Instruments { .. } => None,
            };
            &&& of is Some && 0 <= i < session.subscriptions.len() && (
            match session.subscriptions[i] {
                Subscription::Trades(s) => s@,
                Subscription::Book(s) => s@,
                Subscription::Candles { symbol, .. } => symbol@,
            }) == of->0 ==> session.wants(event)
            &&& of is Some && session.wants(event) ==> session.follows(of->0)
        },
{
    if 0 <= i < session.subscriptions.len() {
        let s = session.subscriptions[i].concerns();
        assert(session.follows(s@)) by {
            assert(session.subscriptions[i].concerns()@ == s@);
        }
    }
}

impl Session {
    pub fn new() -> (s: Session)
        ensures
            s@ == (SessionView { authenticated: false, subscriptions: Seq::empty() }),
    {
        Session { authenticated: false, subscriptions: Vec::new() }
    }

    pub fn subscriptions(&self) -> (r: &[Subscription])
        ensures
            r@ == self@.subscriptions,
    {
        self.subscriptions.as_slice()
    }

    /// Answer one message.
    pub fn handle(&mut self, msg: ClientMsg, auth: &Auth) -> (r: Reaction)
        ensures
            r.reply@ == old(self)@.reply(msg, auth.expected()),
            r.close == old(self)@.ends(msg, auth.expected()),
            final(self)@ == old(self)@.after(msg, auth.expected()),
    {
        match msg {
            ClientMsg::Hello { protocol, token } => {
                if protocol != PROTOCOL_VERSION {
                    return refusal(
                        ErrorCode::ProtocolMismatch,
                        "this core speaks another protocol version",
                    );
                }
                if !auth.accepts(token.as_str()) {
                    return refusal(ErrorCode::Unauthorized, "token not accepted");
                }
                self.authenticated = true;
                Reaction {
                    reply: ServerMsg::Welcome { protocol: PROTOCOL_VERSION },
                    close: false,
                }
            },
            ClientMsg::Subscribe(subs) => {
                if !self.authenticated {
                    return refusal(ErrorCode::NotAuthenticated, "say hello first");
                }
                let mut subs = subs;
                self.subscriptions.append(&mut subs);
                Reaction { reply: ServerMsg::Pong(0), close: false }
            },
            ClientMsg::Ping(n) => {
                if !self.authenticated {
                    return refusal(ErrorCode::NotAuthenticated, "say hello first");
                }
                Reaction { reply: ServerMsg::Pong(n), close: false }
            },
        }
    }

    /// Whether an event is for this session.
    pub fn wants(&self, event: &Event) -> (r: bool)
        ensures
            r == self@.wants(*event),
    {
        if !self.authenticated {
            return false;
        }
        match &event.payload {
            Payload::Market(m) => match m.symbol() {
                None => true,
                Some(symbol) => {
                    let mut i: usize = 0;
                    while i < self.subscriptions.len()
                        invariant
                            i <= self.subscriptions@.len(),
                            self.authenticated,
                            event.payload == Payload::Market(*m),
                            m.concerns() == Some(*symbol),
                            forall|j: int|
                                0 <= j < i ==> (#[trigger] self.subscriptions@[j]).concerns()@
                                    != symbol@,
                        decreases self.subscriptions@.len() - i,
                    {
                        if self.subscriptions[i].symbol().same_as(symbol) {
                            assert(self@.subscriptions[i as int].concerns()@ == symbol@);
                            return true;
                        }
                        i += 1;
                    }
                    false
                },
            },
            Payload::Account(_) => true,
            Payload::Connection(_) => true,
        }
    }
}

fn refusal(code: ErrorCode, why: &str) -> (r: Reaction)
    ensures
        r.reply@ == ServerMsgView::Failed(code, why@),
        r.close,
{
    Reaction { reply: ServerMsg::Failed { code, message: why.to_owned() }, close: true }
}

/// Something that happened to a session.
pub enum Incoming {
    /// A binary frame, decoded.
    Message(ClientMsg),
    /// A binary frame that is no message, and why.
    Undecodable(String),
    Ping(Vec<u8>),
    Closed,
    /// Any other frame. Text is not part of the protocol; ignoring it keeps a browser poking at
    /// the port from costing anything.
    Other,
    Ended,
    Failed(String),
    /// An event was broadcast.
    Event(Event),
    /// The terminal fell behind and the broadcast dropped this many events for it.
    Lagged(u64),
    /// There will be no more events.
    NoMoreEvents,
}

/// Something to do for a session.
#[derive(Debug, PartialEq, Eq)]
pub enum Outgoing {
    Send(ServerMsg),
    Pong(Vec<u8>),
    /// The terminal lost events; count them.
    CountLagged(u64),
    /// The session is over, with what went wrong where something did.
    End(Option<String>),
}

/// What an [`Outgoing`] says.
pub enum OutgoingView {
    Send(ServerMsgView),
    Pong(Seq<u8>),
    CountLagged(u64),
    End(Option<Seq<char>>),
}

impl View for Outgoing {
    type V = OutgoingView;

    open spec fn view(&self) -> OutgoingView {
        match self {
            Outgoing::Send(m) => OutgoingView::Send(m@),
            Outgoing::Pong(p) => OutgoingView::Pong(p@),
            Outgoing::CountLagged(n) => OutgoingView::CountLagged(*n),
            Outgoing::End(why) => OutgoingView::End(
                match why {
                    Some(w) => Some(w@),
                    None => None,
                },
            ),
        }
    }
}

pub open spec fn views(actions: Seq<Outgoing>) -> Seq<OutgoingView> {
    actions.map_values(|a: Outgoing| a@)
}

pub open spec fn told(now: Timestamp, payload: PayloadView) -> OutgoingView {
    OutgoingView::Send(ServerMsgView::Event(EventView { at: now, payload }))
}

/// Current state handed over: the tape, then the candles, then the books. Without it a terminal
/// joining after the books were built receives updates for books it does not have.
pub open spec fn handover(
    state: MarketStateView,
    subs: Seq<Subscription>,
    now: Timestamp,
) -> Seq<OutgoingView> {
    let keys = state::wanted(subs);
    state::gathered(state.tape, keys).map_values(
        |t: PublicTrade| told(now, PayloadView::Trade(t)),
    ) + state::gathered(state.candles, keys).map_values(
        |c: Candle| told(now, PayloadView::Candle(c)),
    ) + state.served(keys).map_values(|b: OrderBookView| told(now, PayloadView::BookSnapshot(b)))
}

/// What is said to a terminal that fell behind. Its book is missing updates, and silence would
/// leave it rendering a stale book as if it were live.
pub open spec fn behind(missed: u64) -> Seq<char> {
    "terminal fell behind, "@ + decimal::digits(missed as int) + " events dropped"@
}

/// What to do about something that happened to a session.
pub open spec fn steps(
    session: SessionView,
    input: Incoming,
    state: MarketStateView,
    token: Seq<char>,
    now: Timestamp,
) -> Seq<OutgoingView> {
    match input {
        Incoming::Message(msg) => {
            let reply = OutgoingView::Send(session.reply(msg, token));
            if session.ends(msg, token) {
                seq![reply, OutgoingView::End(None)]
            } else {
                seq![reply] + handover(state, session.after(msg, token).subscriptions, now)
            }
        },
        Incoming::Undecodable(why) => seq![
            OutgoingView::Send(ServerMsgView::Failed(ErrorCode::Malformed, why@)),
        ] + handover(state, session.subscriptions, now),
        Incoming::Ping(payload) => seq![OutgoingView::Pong(payload@)],
        Incoming::Closed => seq![OutgoingView::End(None)],
        Incoming::Other => Seq::empty(),
        Incoming::Ended => seq![OutgoingView::End(None)],
        Incoming::Failed(why) => seq![OutgoingView::End(Some(why@))],
        Incoming::Event(event) => if session.wants(event) {
            seq![OutgoingView::Send(ServerMsgView::Event(event@))]
        } else {
            Seq::empty()
        },
        Incoming::Lagged(missed) => seq![
            OutgoingView::CountLagged(missed),
            told(now, PayloadView::Resyncing(behind(missed))),
        ],
        Incoming::NoMoreEvents => seq![OutgoingView::End(None)],
    }
}

/// The session after something happened to it: only what the terminal says changes it.
pub open spec fn session_after(session: SessionView, input: Incoming, token: Seq<char>) -> SessionView {
    match input {
        Incoming::Message(msg) => session.after(msg, token),
        _ => session,
    }
}

/// A session has subscriptions only after it was authenticated, however it got where it is.
pub open spec fn subscribed_by_right(session: SessionView) -> bool {
    session.subscriptions.len() > 0 ==> session.authenticated
}

/// A session that is not authenticated is sent no event, whatever happens to it, except that it
/// fell behind.
pub proof fn strangers_receive_nothing(
    session: SessionView,
    input: Incoming,
    state: MarketStateView,
    token: Seq<char>,
    now: Timestamp,
    i: int,
)
    requires
        !session.authenticated,
        subscribed_by_right(session),
        0 <= i < steps(session, input, state, token, now).len(),
    ensures
        steps(session, input, state, token, now)[i] matches OutgoingView::Send(
            ServerMsgView::Event(event),
        ) ==> event.payload is Resyncing,
{
    let none = session.subscriptions;
    assert(none.len() == 0);
    assert(handover(state, none, now) =~= Seq::empty());
    if let Incoming::Message(msg) = input {
        if !session.ends(msg, token) {
            assert(session.after(msg, token).subscriptions == none);
        }
    }
}

/// Subscriptions are only ever taken from an authenticated session, so a stranger is never handed
/// any state either.
pub proof fn strangers_subscribe_to_nothing(session: SessionView, input: Incoming, token: Seq<char>)
    requires
        subscribed_by_right(session),
    ensures
        subscribed_by_right(session_after(session, input, token)),
{
    if let Incoming::Message(msg) = input {
        if session.ends(msg, token) {
        } else if let ClientMsg::Subscribe(subs) = msg {
            assert(session.authenticated);
        }
    }
}

/// A session after all that happened to it, in order.
pub open spec fn lived(
    session: SessionView,
    history: Seq<Incoming>,
    token: Seq<char>,
) -> SessionView
    decreases history.len(),
{
    if history.len() == 0 {
        session
    } else {
        session_after(lived(session, history.drop_last(), token), history.last(), token)
    }
}

/// Whether a terminal greets with the version spoken and the right token.
pub open spec fn greets(input: Incoming, token: Seq<char>) -> bool {
    input matches Incoming::Message(ClientMsg::Hello { protocol, token: theirs }) && protocol
        == PROTOCOL_VERSION && theirs@ == token
}

/// However long a terminal talks: as long as it has not greeted with the right token, no event
/// reaches it but that it fell behind, so nothing private ever does.
pub proof fn without_the_token_nothing_is_seen(
    history: Seq<Incoming>,
    input: Incoming,
    state: MarketStateView,
    token: Seq<char>,
    now: Timestamp,
    i: int,
)
    requires
        forall|j: int| 0 <= j < history.len() ==> !greets(#[trigger] history[j], token),
        0 <= i < steps(
            lived(
                SessionView { authenticated: false, subscriptions: Seq::empty() },
                history,
                token,
            ),
            input,
            state,
            token,
            now,
        ).len(),
    ensures
        steps(
            lived(
                SessionView { authenticated: false, subscriptions: Seq::empty() },
                history,
                token,
            ),
            input,
            state,
            token,
            now,
        )[i] matches OutgoingView::Send(ServerMsgView::Event(event)) ==> event.payload is Resyncing,
{
    let fresh = SessionView { authenticated: false, subscriptions: Seq::empty() };
    lemma_still_a_stranger(fresh, history, token);
    strangers_receive_nothing(lived(fresh, history, token), input, state, token, now, i);
}

proof fn lemma_still_a_stranger(session: SessionView, history: Seq<Incoming>, token: Seq<char>)
    requires
        !session.authenticated,
        subscribed_by_right(session),
        forall|j: int| 0 <= j < history.len() ==> !greets(#[trigger] history[j], token),
    ensures
        !lived(session, history, token).authenticated,
        subscribed_by_right(lived(session, history, token)),
    decreases history.len(),
{
    if history.len() > 0 {
        let before = history.drop_last();
        assert forall|j: int| 0 <= j < before.len() implies !greets(#[trigger] before[j], token) by {
            assert(before[j] == history[j]);
        }
        lemma_still_a_stranger(session, before, token);
        let s = lived(session, before, token);
        strangers_subscribe_to_nothing(s, history.last(), token);
        assert(!greets(history[history.len() - 1], token));
        if let Incoming::Message(msg) = history.last() {
            if session_after(s, history.last(), token).authenticated {
                only_the_token_authenticates(s, msg, token);
            }
        }
    }
}

/// A subscription is acknowledged before anything is handed over, and what is handed over has
/// the current book of every instrument subscribed to: a terminal that joins after a book was
/// built does not stay blank.
pub proof fn a_subscriber_is_handed_the_book(
    session: SessionView,
    subs: Vec<Subscription>,
    i: int,
    state: MarketStateView,
    token: Seq<char>,
    now: Timestamp,
)
    requires
        session.authenticated,
        0 <= i < subs@.len(),
        state.books.contains_key(subs@[i].concerns()@.key()),
        state.books[subs@[i].concerns()@.key()].synced,
    ensures
        ({
            let sent = steps(
                session,
                Incoming::Message(ClientMsg::Subscribe(subs)),
                state,
                token,
                now,
            );
            &&& sent[0] == OutgoingView::Send(ServerMsgView::Pong(0))
            &&& sent.skip(1).contains(
                told(
                    now,
                    PayloadView::BookSnapshot(state.books[subs@[i].concerns()@.key()]),
                ),
            )
        }),
{
    let all = session.subscriptions + subs@;
    let at = session.subscriptions.len() + i;
    let book = state.books[subs@[i].concerns()@.key()];
    assert(all[at] == subs@[i]);
    state::a_live_book_is_served(state, all, at);
    let served = state.served(state::wanted(all));
    let k = served.index_of(book);
    let over = handover(state, all, now);
    let told_books = served.map_values(|b: OrderBookView| told(now, PayloadView::BookSnapshot(b)));
    assert(told_books[k] == told(now, PayloadView::BookSnapshot(book)));
    assert(over[over.len() - told_books.len() + k] == told_books[k]);
    let sent = steps(session, Incoming::Message(ClientMsg::Subscribe(subs)), state, token, now);
    assert(sent.skip(1) =~= over);
}

/// What is handed over is of the instruments subscribed to and of no other, the prints before the
/// bars and the bars before the books.
pub proof fn nothing_else_is_handed_over(
    state: MarketStateView,
    subs: Seq<Subscription>,
    now: Timestamp,
    k: int,
    later: int,
)
    requires
        0 <= k < handover(state, subs, now).len(),
    ensures
        ({
            let over = handover(state, subs, now);
            &&& over[k] matches OutgoingView::Send(ServerMsgView::Event(e)) && e.at == now && {
                ||| e.payload matches PayloadView::Trade(t) && exists|i: int|
                    0 <= i < subs.len() && state::kept(
                        state.tape,
                        (#[trigger] subs[i]).concerns()@.key(),
                    ).contains(t)
                ||| e.payload matches PayloadView::Candle(c) && exists|i: int|
                    0 <= i < subs.len() && state::kept(
                        state.candles,
                        (#[trigger] subs[i]).concerns()@.key(),
                    ).contains(c)
                ||| e.payload matches PayloadView::BookSnapshot(b) && b.synced && exists|i: int|
                    0 <= i < subs.len() && state.books.contains_key(
                        (#[trigger] subs[i]).concerns()@.key(),
                    ) && state.books[subs[i].concerns()@.key()] == b
            }
            &&& k < later < over.len() ==> stage(over[k]) <= stage(over[later])
        }),
{
    let keys = state::wanted(subs);
    let over = handover(state, subs, now);
    let tape = state::gathered(state.tape, keys);
    let bars = state::gathered(state.candles, keys);
    let books = state.served(keys);
    state::each_instrument_is_served_once(subs);
    state::all_of_it_is_gathered(state.tape, keys);
    state::all_of_it_is_gathered(state.candles, keys);
    state::only_live_books_are_served(state, keys);
    if k < tape.len() {
        let t = tape[k];
        let j = choose|j: int|
            0 <= j < keys.len() && state::kept(state.tape, #[trigger] keys[j]).contains(t);
        assert(keys.contains(keys[j]));
        let i = choose|i: int|
            0 <= i < subs.len() && #[trigger] subs[i].concerns()@.key() == keys[j];
        assert(state::kept(state.tape, subs[i].concerns()@.key()).contains(t));
        assert(over[k] == told(now, PayloadView::Trade(t)));
    } else if k < tape.len() + bars.len() {
        let c = bars[k - tape.len()];
        let j = choose|j: int|
            0 <= j < keys.len() && state::kept(state.candles, #[trigger] keys[j]).contains(c);
        assert(keys.contains(keys[j]));
        let i = choose|i: int|
            0 <= i < subs.len() && #[trigger] subs[i].concerns()@.key() == keys[j];
        assert(state::kept(state.candles, subs[i].concerns()@.key()).contains(c));
        assert(over[k] == told(now, PayloadView::Candle(c)));
    } else {
        let b = books[k - tape.len() - bars.len()];
        let j = choose|j: int|
            0 <= j < keys.len() && state.books.contains_key(#[trigger] keys[j])
                && state.books[keys[j]] == b;
        assert(keys.contains(keys[j]));
        let i = choose|i: int|
            0 <= i < subs.len() && #[trigger] subs[i].concerns()@.key() == keys[j];
        assert(state.books[subs[i].concerns()@.key()] == b);
        assert(over[k] == told(now, PayloadView::BookSnapshot(b)));
    }
    if k < later < over.len() {
        if later < tape.len() {
            assert(over[later] == told(now, PayloadView::Trade(tape[later])));
        } else if later < tape.len() + bars.len() {
            assert(over[later] == told(now, PayloadView::Candle(bars[later - tape.len()])));
        } else {
            assert(over[later] == told(
                now,
                PayloadView::BookSnapshot(books[later - tape.len() - bars.len()]),
            ));
        }
    }
}

/// When in a handover something comes: prints first, then bars, then books.
pub open spec fn stage(sent: OutgoingView) -> int {
    match sent {
        OutgoingView::Send(ServerMsgView::Event(e)) => match e.payload {
            PayloadView::Trade(_) => 0,
            PayloadView::Candle(_) => 1,
            _ => 2,
        },
        _ => 3,
    }
}

/// What is handed over has every print and every bar kept for an instrument subscribed to.
pub proof fn the_history_is_handed_over(
    state: MarketStateView,
    subs: Seq<Subscription>,
    now: Timestamp,
    i: int,
    j: int,
)
    requires
        0 <= i < subs.len(),
    ensures
        ({
            let over = handover(state, subs, now);
            let key = subs[i].concerns()@.key();
            &&& 0 <= j < state::kept(state.tape, key).len() ==> over.contains(
                told(now, PayloadView::Trade(state::kept(state.tape, key)[j])),
            )
            &&& 0 <= j < state::kept(state.candles, key).len() ==> over.contains(
                told(now, PayloadView::Candle(state::kept(state.candles, key)[j])),
            )
        }),
{
    let keys = state::wanted(subs);
    let key = subs[i].concerns()@.key();
    let over = handover(state, subs, now);
    state::each_instrument_is_served_once(subs);
    assert(keys.contains(key));
    let at = keys.index_of(key);
    let tape = state::gathered(state.tape, keys);
    let bars = state::gathered(state.candles, keys);
    state::all_of_it_is_gathered(state.tape, keys);
    state::all_of_it_is_gathered(state.candles, keys);
    if 0 <= j < state::kept(state.tape, key).len() {
        let t = state::kept(state.tape, keys[at])[j];
        assert(tape.contains(t));
        assert(over[tape.index_of(t)] == told(now, PayloadView::Trade(t)));
    }
    if 0 <= j < state::kept(state.candles, key).len() {
        let c = state::kept(state.candles, keys[at])[j];
        assert(bars.contains(c));
        assert(over[tape.len() + bars.index_of(c)] == told(now, PayloadView::Candle(c)));
    }
}

/// An event that a session wants is sent to it as it is, one that it does not want is not sent, and
/// a session that fell behind is told how far.
pub proof fn events_are_passed_on(
    session: SessionView,
    event: Event,
    missed: u64,
    state: MarketStateView,
    token: Seq<char>,
    now: Timestamp,
)
    ensures
        steps(session, Incoming::Event(event), state, token, now).contains(
            OutgoingView::Send(ServerMsgView::Event(event@)),
        ) <==> session.wants(event),
        !session.wants(event) ==> steps(session, Incoming::Event(event), state, token, now).len()
            == 0,
        steps(session, Incoming::Lagged(missed), state, token, now) == seq![
            OutgoingView::CountLagged(missed),
            OutgoingView::Send(
                ServerMsgView::Event(
                    EventView {
                        at: now,
                        payload: PayloadView::Resyncing(
                            "terminal fell behind, "@ + decimal::digits(missed as int)
                                + " events dropped"@,
                        ),
                    },
                ),
            ),
        ],
{
    let passed = steps(session, Incoming::Event(event), state, token, now);
    if session.wants(event) {
        assert(passed[0] == OutgoingView::Send(ServerMsgView::Event(event@)));
    }
}

/// A refusal is said and then the session ends; a frame that is no message is answered with why, and
/// the session goes on. What the socket asks is answered, and when it is over so is the session,
/// with what went wrong where something did.
pub proof fn a_session_ends_when_it_is_over(
    session: SessionView,
    msg: ClientMsg,
    why: String,
    payload: Vec<u8>,
    state: MarketStateView,
    token: Seq<char>,
    now: Timestamp,
)
    ensures
        session.reply(msg, token) is Failed ==> steps(
            session,
            Incoming::Message(msg),
            state,
            token,
            now,
        ) == seq![OutgoingView::Send(session.reply(msg, token)), OutgoingView::End(None)],
        !(session.reply(msg, token) is Failed) ==> {
            let said = steps(session, Incoming::Message(msg), state, token, now);
            &&& said[0] == OutgoingView::Send(session.reply(msg, token))
            &&& forall|i: int| 0 <= i < said.len() ==> !((#[trigger] said[i]) is End)
        },
        ({
            let said = steps(session, Incoming::Undecodable(why), state, token, now);
            &&& said[0] == OutgoingView::Send(ServerMsgView::Failed(ErrorCode::Malformed, why@))
            &&& forall|i: int| 0 <= i < said.len() ==> !((#[trigger] said[i]) is End)
        }),
        steps(session, Incoming::Ping(payload), state, token, now) == seq![
            OutgoingView::Pong(payload@),
        ],
        steps(session, Incoming::Closed, state, token, now) == seq![OutgoingView::End(None)],
        steps(session, Incoming::Ended, state, token, now) == seq![OutgoingView::End(None)],
        steps(session, Incoming::NoMoreEvents, state, token, now) == seq![OutgoingView::End(None)],
        steps(session, Incoming::Failed(why), state, token, now) == seq![
            OutgoingView::End(Some(why@)),
        ],
        steps(session, Incoming::Other, state, token, now).len() == 0,
{
}

/// One terminal's session.
pub struct Terminal {
    session: Session,
}

impl View for Terminal {
    type V = SessionView;

    closed spec fn view(&self) -> SessionView {
        self.session@
    }
}

impl Terminal {
    pub fn new() -> (t: Terminal)
        ensures
            t@ == (SessionView { authenticated: false, subscriptions: Seq::empty() }),
    {
        Terminal { session: Session::new() }
    }

    /// What to do about something that happened to the session.
    pub fn step(
        &mut self,
        input: Incoming,
        state: &MarketState,
        auth: &Auth,
        now: Timestamp,
    ) -> (r: Vec<Outgoing>)
        requires
            state.wf(),
        ensures
            views(r@) == steps(old(self)@, input, state@, auth.expected(), now),
            final(self)@ == session_after(old(self)@, input, auth.expected()),
    {
        let mut r: Vec<Outgoing> = Vec::new();
        match input {
            Incoming::Message(msg) => {
                let reaction = self.session.handle(msg, auth);
                r.push(Outgoing::Send(reaction.reply));
                if reaction.close {
                    r.push(Outgoing::End(None));
                } else {
                    self.hand_over(state, now, &mut r);
                }
            },
            Incoming::Undecodable(why) => {
                r.push(
                    Outgoing::Send(
                        ServerMsg::Failed { code: ErrorCode::Malformed, message: why },
                    ),
                );
                self.hand_over(state, now, &mut r);
            },
            Incoming::Ping(payload) => {
                r.push(Outgoing::Pong(payload));
            },
            Incoming::Closed => {
                r.push(Outgoing::End(None));
            },
            Incoming::Other => {},
            Incoming::Ended => {
                r.push(Outgoing::End(None));
            },
            Incoming::Failed(why) => {
                r.push(Outgoing::End(Some(why)));
            },
            Incoming::Event(event) => {
                if self.session.wants(&event) {
                    r.push(Outgoing::Send(ServerMsg::Event(event)));
                }
            },
            Incoming::Lagged(missed) => {
                let mut reason = "terminal fell behind, ".to_owned();
                reason.append(text::unsigned(missed).as_str());
                reason.append(" events dropped");
                r.push(Outgoing::CountLagged(missed));
                r.push(
                    Outgoing::Send(
                        ServerMsg::Event(
                            Event::connection(now, ConnectionEvent::Resyncing { reason }),
                        ),
                    ),
                );
            },
            Incoming::NoMoreEvents => {
                r.push(Outgoing::End(None));
            },
        }
        assert(views(r@) =~= steps(old(self)@, input, state@, auth.expected(), now));
        r
    }

    /// Hand over current state, then let the stream carry it forward.
    fn hand_over(&self, state: &MarketState, now: Timestamp, r: &mut Vec<Outgoing>)
        requires
            state.wf(),
        ensures
            views(final(r)@) == views(old(r)@) + handover(state@, self@.subscriptions, now),
    {
        let ghost start = views(r@);
        let trades = state.tape_for(self.session.subscriptions());
        let ghost ts = trades@.map_values(|t: PublicTrade| told(now, PayloadView::Trade(t)));
        let mut i: usize = 0;
        assert(start + ts.take(0) =~= start);
        while i < trades.len()
            invariant
                i <= trades@.len(),
                ts == trades@.map_values(|t: PublicTrade| told(now, PayloadView::Trade(t))),
                views(r@) == start + ts.take(i as int),
            decreases trades@.len() - i,
        {
            let event = Event::market(now, MarketEvent::Trade(trades[i].clone()));
            push(r, Outgoing::Send(ServerMsg::Event(event)));
            i += 1;
            assert(start + ts.take(i as int) =~= (start + ts.take(i - 1)).push(ts[i - 1]));
        }
        assert(ts.take(i as int) =~= ts);
        let candles = state.candles_for(self.session.subscriptions());
        let ghost cs = candles@.map_values(|c: Candle| told(now, PayloadView::Candle(c)));
        let ghost middle = start + ts;
        let mut j: usize = 0;
        assert(middle + cs.take(0) =~= middle);
        while j < candles.len()
            invariant
                j <= candles@.len(),
                cs == candles@.map_values(|c: Candle| told(now, PayloadView::Candle(c))),
                views(r@) == middle + cs.take(j as int),
            decreases candles@.len() - j,
        {
            let event = Event::market(now, MarketEvent::Candle(candles[j].clone()));
            push(r, Outgoing::Send(ServerMsg::Event(event)));
            j += 1;
            assert(middle + cs.take(j as int) =~= (middle + cs.take(j - 1)).push(cs[j - 1]));
        }
        assert(cs.take(j as int) =~= cs);
        let books = state.snapshots_for(self.session.subscriptions());
        let ghost bs = books@.map_values(|b: OrderBook| b@).map_values(
            |b: OrderBookView| told(now, PayloadView::BookSnapshot(b)),
        );
        let ghost late = middle + cs;
        let mut k: usize = 0;
        assert(late + bs.take(0) =~= late);
        while k < books.len()
            invariant
                k <= books@.len(),
                bs == books@.map_values(|b: OrderBook| b@).map_values(
                    |b: OrderBookView| told(now, PayloadView::BookSnapshot(b)),
                ),
                views(r@) == late + bs.take(k as int),
            decreases books@.len() - k,
        {
            let event = Event::market(now, MarketEvent::BookSnapshot(books[k].clone()));
            push(r, Outgoing::Send(ServerMsg::Event(event)));
            k += 1;
            assert(late + bs.take(k as int) =~= (late + bs.take(k - 1)).push(bs[k - 1]));
        }
        assert(bs.take(k as int) =~= bs);
        assert(start + handover(state@, self@.subscriptions, now) =~= late + bs);
    }
}

fn push(r: &mut Vec<Outgoing>, a: Outgoing)
    ensures
        views(final(r)@) == views(old(r)@).push(a@),
{
    r.push(a);
    assert(views(r@) =~= views(old(r)@).push(a@));
}

} // verus!

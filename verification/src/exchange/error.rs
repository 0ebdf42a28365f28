//! What a connector can fail with, what it is given, and what it is asked for.

use crate::decimal;
use crate::domain::ids::{MarketKind, Symbol};
use crate::text;
use vstd::prelude::*;

verus! {

/// What a connector can fail with.
///
/// Callers must be able to distinguish "the venue said no" from "the network blinked": the first
/// is final, the second is worth retrying.
#[derive(Debug, PartialEq, Eq)]
pub enum Error {
    /// Transport failure. Retryable.
    Transport(String),
    /// The venue rejected the request on its merits. Not retryable as-is.
    Rejected { code: String, message: String },
    /// Rate limit hit. Retryable after `retry_after_ms`, if the venue told.
    RateLimited { retry_after_ms: Option<u64> },
    /// Credentials missing, wrong, or lacking the permission the call needs.
    Auth(String),
    /// The venue sent something that could not be interpreted. Never retry blindly: a parse
    /// failure on an order update means local state is already suspect.
    Malformed(String),
    /// The connector does not offer this on this market.
    Unsupported { what: &'static str, market: MarketKind },
}

impl Error {
    pub open spec fn retryable(self) -> bool {
        self is Transport || self is RateLimited
    }

    pub open spec fn text(self) -> Seq<char> {
        match self {
            Error::Transport(why) => "transport: "@ + why@,
            Error::Rejected { code, message } => "venue rejected ("@ + code@ + "): "@ + message@,
            Error::RateLimited { retry_after_ms } => match retry_after_ms {
                Some(ms) => "rate limited (retry after Some("@ + decimal::digits(ms as int)
                    + ") ms)"@,
                None => "rate limited (retry after None ms)"@,
            },
            Error::Auth(why) => "auth: "@ + why@,
            Error::Malformed(why) => "malformed venue response: "@ + why@,
            Error::Unsupported { what, market } => what@ + " is not supported on "@
                + market.text(),
        }
    }

    /// Whether retrying the same request unchanged could succeed.
    pub fn is_retryable(&self) -> (r: bool)
        ensures
            r == self.retryable(),
            r == (*self is Transport || *self is RateLimited),
    {
        match self {
            Error::Transport(_) => true,
            Error::RateLimited { .. } => true,
            Error::Rejected { .. } => false,
            Error::Auth(_) => false,
            Error::Malformed(_) => false,
            Error::Unsupported { .. } => false,
        }
    }

    pub fn to_string(&self) -> (r: String)
        ensures
            r@ == self.text(),
    {
        let mut r = String::new();
        match self {
            Error::Transport(why) => {
                r.append("transport: ");
                r.append(why.as_str());
            },
            Error::Rejected { code, message } => {
                r.append("venue rejected (");
                r.append(code.as_str());
                r.append("): ");
                r.append(message.as_str());
            },
            Error::RateLimited { retry_after_ms } => match retry_after_ms {
                Some(ms) => {
                    r.append("rate limited (retry after Some(");
                    r.append(text::unsigned(*ms).as_str());
                    r.append(") ms)");
                },
                None => {
                    r.append("rate limited (retry after None ms)");
                },
            },
            Error::Auth(why) => {
                r.append("auth: ");
                r.append(why.as_str());
            },
            Error::Malformed(why) => {
                r.append("malformed venue response: ");
                r.append(why.as_str());
            },
            Error::Unsupported { what, market } => {
                r.append(what);
                r.append(" is not supported on ");
                r.append(market.as_str());
            },
        }
        assert(r@ =~= self.text());
        r
    }
}

/// API credentials for one venue account. Never leave the core process.
#[derive(Clone)]
pub struct Credentials {
    pub api_key: String,
    pub api_secret: String,
}

impl Credentials {
    /// How credentials appear in a log: the same for every account, so that a stray line cannot
    /// leak one.
    pub fn redacted(&self) -> (r: String)
        ensures
            r@ == "Credentials { api_key: \"<redacted>\", api_secret: \"<redacted>\" }"@,
    {
        "Credentials { api_key: \"<redacted>\", api_secret: \"<redacted>\" }".to_owned()
    }
}

/// What market data to stream for an instrument.
#[derive(Debug, PartialEq, Eq)]
pub enum Subscription {
    /// Public trade tape.
    Trades(Symbol),
    /// Incremental order book. The connector owns snapshot fetching and gap resync.
    Book(Symbol),
    Candles { symbol: Symbol, interval_ms: i64 },
}

impl Clone for Subscription {
    fn clone(&self) -> (r: Self)
        ensures
            r == *self,
    {
        match self {
            Subscription::Trades(s) => Subscription::Trades(s.clone()),
            Subscription::Book(s) => Subscription::Book(s.clone()),
            Subscription::Candles { symbol, interval_ms } => Subscription::Candles {
                symbol: symbol.clone(),
                interval_ms: *interval_ms,
            },
        }
    }
}

impl Subscription {
    pub open spec fn concerns(self) -> Symbol {
        match self {
            Subscription::Trades(s) => s,
            Subscription::Book(s) => s,
            Subscription::Candles { symbol, .. } => symbol,
        }
    }

    /// The instrument this subscription concerns. Used to route a request to the connector that
    /// owns its market, and to decide which sessions an event belongs to.
    pub fn symbol(&self) -> (r: &Symbol)
        ensures
            *r == self.concerns(),
    {
        match self {
            Subscription::Trades(s) => s,
            Subscription::Book(s) => s,
            Subscription::Candles { symbol, .. } => symbol,
        }
    }
}

} // verus!

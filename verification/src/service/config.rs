//! Startup configuration.
//!
//! The token is the only thing standing between the open internet and an account, so a core
//! without a proper one refuses to start.

use crate::domain::ids::{ExchangeId, MarketKind, Symbol, SymbolView};
use crate::exchange::error::Subscription;
use crate::table;
use crate::text;
use vstd::prelude::*;
use vstd::utf8;

verus! {

pub struct Config {
    /// The address to listen on, as it was written.
    pub bind: String,
    pub token: String,
    pub markets: Vec<MarketKind>,
    /// Tickers to stream, as the venue spells them.
    pub tickers: Vec<String>,
}

/// The fewest bytes a token may have.
pub const SHORTEST_TOKEN: usize = 16;

/// The address listened on where none is asked for.
pub const LOOPBACK: &'static str = "127.0.0.1:8787";

/// The address to listen on.
///
/// Loopback by default. Binding to every interface is a decision that has to be made out loud, once
/// the operator has a firewall rule to match.
pub open spec fn bound_to(bind: Option<String>) -> Seq<char> {
    match bind {
        Some(b) => b@,
        None => LOOPBACK@,
    }
}

pub fn bind_text(bind: Option<String>) -> (r: String)
    ensures
        r@ == bound_to(bind),
{
    match bind {
        Some(b) => b,
        None => LOOPBACK.to_owned(),
    }
}

/// What is wrong with a token, if anything.
pub open spec fn token_fault(token: Option<String>) -> Option<Seq<char>> {
    match token {
        None => Some("MOON_TOKEN is not set — a core without a token would serve anyone"@),
        Some(t) => if utf8::encode_utf8(t@).len() < SHORTEST_TOKEN {
            Some("MOON_TOKEN is shorter than 16 characters"@)
        } else {
            None
        },
    }
}

/// The tickers streamed where none are asked for.
pub open spec fn asked_for(args: Seq<Seq<char>>) -> Seq<Seq<char>> {
    if args.len() == 0 {
        seq!["BTCUSDT"@]
    } else {
        args
    }
}

/// What is asked for is streamed as it is asked for; where nothing is, one ticker is.
pub proof fn there_is_always_a_ticker(args: Seq<Seq<char>>)
    ensures
        asked_for(args).len() > 0,
        args.len() > 0 ==> asked_for(args) == args,
        args.len() == 0 ==> asked_for(args) == seq!["BTCUSDT"@],
{
}

impl Config {
    /// The configuration that the surroundings make: the token and the address, where they are
    /// set, and the tickers on the command line.
    pub fn from_values(
        token: Option<String>,
        bind: Option<String>,
        args: Vec<String>,
    ) -> (r: Result<Config, String>)
        ensures
            match r {
                Ok(c) => {
                    &&& token_fault(token) is None
                    &&& c.token@ == token->0@
                    &&& c.bind@ == bound_to(bind)
                    &&& c.markets@ == seq![MarketKind::Spot, MarketKind::LinearPerp]
                    &&& table::texts(c.tickers@) == asked_for(table::texts(args@)).map_values(
                        |t: Seq<char>| text::uppercase(t),
                    )
                },
                Err(why) => token_fault(token) == Some(why@),
            },
    {
        let token = match token {
            Some(t) => t,
            None => {
                return Err(
                    "MOON_TOKEN is not set — a core without a token would serve anyone".to_owned(),
                );
            },
        };
        if token.as_str().as_bytes().len() < SHORTEST_TOKEN {
            return Err("MOON_TOKEN is shorter than 16 characters".to_owned());
        }
        let bind = bind_text(bind);
        let mut markets: Vec<MarketKind> = Vec::new();
        markets.push(MarketKind::Spot);
        markets.push(MarketKind::LinearPerp);
        let tickers = tickers_from(args);
        Ok(Config { bind, token, markets, tickers })
    }
}

/// The tickers on a command line, as the venue spells them: one where none is given.
pub fn tickers_from(args: Vec<String>) -> (r: Vec<String>)
    ensures
        table::texts(r@) == asked_for(table::texts(args@)).map_values(
            |t: Seq<char>| text::uppercase(t),
        ),
{
    let mut raw = args;
    if raw.len() == 0 {
        raw.push("BTCUSDT".to_owned());
    }
    assert(table::texts(raw@) =~= asked_for(table::texts(args@)));
    upper(&raw)
}

fn upper(tickers: &Vec<String>) -> (r: Vec<String>)
    ensures
        table::texts(r@) == table::texts(tickers@).map_values(|t: Seq<char>| text::uppercase(t)),
{
    let ghost all = table::texts(tickers@).map_values(|t: Seq<char>| text::uppercase(t));
    let mut r: Vec<String> = Vec::new();
    let mut i: usize = 0;
    assert(table::texts(r@) =~= all.take(0));
    while i < tickers.len()
        invariant
            i <= tickers@.len(),
            all == table::texts(tickers@).map_values(|t: Seq<char>| text::uppercase(t)),
            table::texts(r@) == all.take(i as int),
        decreases tickers@.len() - i,
    {
        let ghost before = r@;
        r.push(text::to_uppercase(tickers[i].as_str()));
        i += 1;
        assert(table::texts(r@) =~= table::texts(before).push(all[i - 1]));
        assert(all.take(i as int) =~= all.take(i - 1).push(all[i - 1]));
    }
    assert(all.take(i as int) =~= all);
    r
}

/// Whether a core may listen: on loopback in plaintext, anywhere else only encrypted. The token
/// is a bearer credential, so whoever reads it off the network becomes the terminal.
pub fn may_listen(loopback: bool, encrypted: bool) -> (r: Result<(), String>)
    ensures
        match r {
            Ok(_) => loopback || encrypted,
            Err(why) => !loopback && !encrypted && why@
                == "refusing to listen in plaintext anywhere but loopback"@,
        },
{
    if loopback || encrypted {
        Ok(())
    } else {
        Err("refusing to listen in plaintext anywhere but loopback".to_owned())
    }
}

/// Where the certificate and its key are, where the core is to encrypt: both are given or neither.
pub fn tls_paths(cert: Option<String>, key: Option<String>) -> (r: Result<
    Option<(String, String)>,
    String,
>)
    ensures
        match r {
            Ok(Some((c, k))) => cert is Some && c@ == cert->0@ && key is Some && k@ == key->0@,
            Ok(None) => cert is None && key is None,
            Err(why) => (cert is None) != (key is None) && why@
                == "MOON_TLS_CERT and MOON_TLS_KEY go together"@,
        },
{
    match (cert, key) {
        (Some(cert), Some(key)) => Ok(Some((cert, key))),
        (None, None) => Ok(None),
        _ => Err("MOON_TLS_CERT and MOON_TLS_KEY go together".to_owned()),
    }
}

/// All that a core starts with.
pub struct Startup {
    pub config: Config,
    /// The paths of the certificate and its key, where the core is to encrypt.
    pub tls: Option<(String, String)>,
}

/// Why a core does not start, if it does not: the first of the token, the address, the pair of
/// certificate and key, and listening in plaintext anywhere but on loopback.
pub open spec fn startup_fault(
    token: Option<String>,
    bind: Option<String>,
    loopback: Result<bool, String>,
    cert: Option<String>,
    key: Option<String>,
) -> Option<Seq<char>> {
    if token_fault(token) is Some {
        token_fault(token)
    } else {
        match loopback {
            Err(why) => Some("MOON_BIND `"@ + bound_to(bind) + "` is not an address: "@ + why@),
            Ok(local) => if (cert is None) != (key is None) {
                Some("MOON_TLS_CERT and MOON_TLS_KEY go together"@)
            } else if !local && cert is None {
                Some("refusing to listen in plaintext anywhere but loopback"@)
            } else {
                None
            },
        }
    }
}

/// A core starts only with a token of sixteen bytes or more, and where it is reachable from
/// elsewhere only encrypted; then it does start.
pub proof fn what_a_core_starts_with(
    token: Option<String>,
    bind: Option<String>,
    loopback: Result<bool, String>,
    cert: Option<String>,
    key: Option<String>,
)
    ensures
        startup_fault(token, bind, loopback, cert, key) is None <==> {
            &&& token is Some && utf8::encode_utf8(token->0@).len() >= 16
            &&& loopback is Ok
            &&& (cert is Some && key is Some) || (cert is None && key is None && loopback->Ok_0)
        },
        bind is None ==> bound_to(bind) == "127.0.0.1:8787"@,
        bind matches Some(b) ==> bound_to(bind) == b@,
{
}

/// What a core starts with, from its surroundings: the token, the address, whether that is one of
/// loopback or why it cannot be read, the command line, and the paths of the certificate and its
/// key.
///
/// A core that starts listens on loopback or encrypts.
pub fn start(
    token: Option<String>,
    bind: Option<String>,
    loopback: Result<bool, String>,
    args: Vec<String>,
    cert: Option<String>,
    key: Option<String>,
) -> (r: Result<Startup, String>)
    ensures
        match r {
            Ok(s) => {
                &&& startup_fault(token, bind, loopback, cert, key) is None
                &&& loopback == Ok::<bool, String>(true) || s.tls is Some
                &&& s.config.token@ == token->0@
                &&& s.config.bind@ == bound_to(bind)
                &&& s.config.markets@ == seq![MarketKind::Spot, MarketKind::LinearPerp]
                &&& table::texts(s.config.tickers@) == asked_for(table::texts(args@)).map_values(
                    |t: Seq<char>| text::uppercase(t),
                )
                &&& match s.tls {
                    Some((c, k)) => cert is Some && c@ == cert->0@ && key is Some && k@ == key->0@,
                    None => cert is None && key is None,
                }
            },
            Err(why) => startup_fault(token, bind, loopback, cert, key) == Some(why@),
        },
{
    let config = Config::from_values(token, bind, args)?;
    let local: bool = match loopback {
        Ok(local) => local,
        Err(why) => {
            return Err(bad_bind(config.bind.as_str(), why.as_str()));
        },
    };
    let tls = tls_paths(cert, key)?;
    let _ = may_listen(local, tls.is_some())?;
    Ok(Startup { config, tls })
}

/// What is said of an address that cannot be read.
pub fn bad_bind(raw: &str, why: &str) -> (r: String)
    ensures
        r@ == "MOON_BIND `"@ + raw@ + "` is not an address: "@ + why@,
{
    let mut r = "MOON_BIND `".to_owned();
    r.append(raw);
    r.append("` is not an address: ");
    r.append(why);
    r
}

/// What is subscribed to at startup: the tape and the book of every ticker.
pub open spec fn startup(market: MarketKind, subs: Seq<Subscription>, tickers: Seq<Seq<char>>) -> bool {
    &&& subs.len() == 2 * tickers.len()
    &&& forall|i: int|
        0 <= i < tickers.len() ==> {
            let symbol = SymbolView {
                exchange: ExchangeId::Binance,
                market,
                raw: #[trigger] tickers[i],
            };
            &&& subs[2 * i] matches Subscription::Trades(s) && s@ == symbol
            &&& subs[2 * i + 1] matches Subscription::Book(s) && s@ == symbol
        }
}

/// Every ticker has its tape and its book subscribed to, and nothing else is.
pub proof fn every_ticker_is_subscribed_to(
    market: MarketKind,
    subs: Seq<Subscription>,
    tickers: Seq<Seq<char>>,
    i: int,
)
    requires
        startup(market, subs, tickers),
        0 <= i < tickers.len(),
    ensures
        subs.len() == tickers.len() + tickers.len(),
        exists|j: int|
            0 <= j < subs.len() && (#[trigger] subs[j] matches Subscription::Trades(s) && s.raw@
                == tickers[i] && s.market == market && s.exchange == ExchangeId::Binance),
        exists|j: int|
            0 <= j < subs.len() && (#[trigger] subs[j] matches Subscription::Book(s) && s.raw@
                == tickers[i] && s.market == market && s.exchange == ExchangeId::Binance),
{
    let t = tickers[i];
    assert(subs[2 * i] is Trades);
    assert(subs[2 * i + 1] is Book);
}

/// The tape and the book of every ticker of a market.
pub fn startup_subscriptions(market: MarketKind, tickers: &Vec<String>) -> (r: Vec<Subscription>)
    requires
        2 * tickers@.len() <= usize::MAX,
    ensures
        startup(market, r@, table::texts(tickers@)),
{
    let mut r: Vec<Subscription> = Vec::new();
    let mut i: usize = 0;
    let ghost all = table::texts(tickers@);
    while i < tickers.len()
        invariant
            i <= tickers@.len(),
            all == table::texts(tickers@),
            startup(market, r@, all.take(i as int)),
        decreases tickers@.len() - i,
    {
        let symbol = Symbol::new(ExchangeId::Binance, market, tickers[i].as_str());
        let ghost before = r@;
        r.push(Subscription::Trades(symbol.clone()));
        r.push(Subscription::Book(symbol));
        i += 1;
        proof {
            let t = all.take(i as int);
            assert forall|j: int| 0 <= j < t.len() implies {
                let symbol = SymbolView {
                    exchange: ExchangeId::Binance,
                    market,
                    raw: #[trigger] t[j],
                };
                &&& r@[2 * j] matches Subscription::Trades(s) && s@ == symbol
                &&& r@[2 * j + 1] matches Subscription::Book(s) && s@ == symbol
            } by {
                if j < i - 1 {
                    assert(t[j] == all.take(i - 1)[j]);
                    assert(r@[2 * j] == before[2 * j]);
                    assert(r@[2 * j + 1] == before[2 * j + 1]);
                }
            }
        }
    }
    assert(all.take(i as int) =~= all);
    r
}

} // verus!

//! What is asked of the venue over HTTP, and what its answers mean.

use crate::binance::streams;
use crate::decimal;
use crate::domain::ids::MarketKind;
use crate::exchange::error::{Error, Subscription};
use crate::text;
use vstd::prelude::*;

verus! {

/// The first `max` characters of a text, all of it where it has no more.
pub open spec fn shortened(s: Seq<char>, max: int) -> Seq<char> {
    if s.len() > max {
        s.take(max)
    } else {
        s
    }
}

pub fn truncate(s: &str, max: usize) -> (r: &str)
    ensures
        r@ == shortened(s@, max as int),
        s@.len() <= max ==> r@ == s@,
        s@.len() > max ==> r@.len() == max && r@ == s@.subrange(0, max as int),
{
    if s.unicode_len() > max {
        let r = s.substring_char(0, max);
        assert(r@ =~= s@.take(max as int));
        r
    } else {
        s
    }
}

/// The body of an answer, unless its status says that there is none.
///
/// A venue answers a client that went over its limits with 429, and one that ignored that with
/// 418. Anything else that is no success is a rejection.
pub fn accept(status: u16, body: String) -> (r: Result<String, Error>)
    ensures
        match r {
            Ok(b) => 200 <= status < 300 && b == body,
            Err(Error::RateLimited { retry_after_ms }) => (status == 429 || status == 418)
                && retry_after_ms is None,
            Err(Error::Rejected { code, message }) => status != 429 && status != 418 && !(200
                <= status < 300) && code@ == decimal::digits(status as int) && message == body,
            Err(_) => false,
        },
{
    if status == 429 || status == 418 {
        return Err(Error::RateLimited { retry_after_ms: None });
    }
    if !(200 <= status && status < 300) {
        return Err(Error::Rejected { code: text::unsigned(status as u64), message: body });
    }
    Ok(body)
}

/// An answer that could not be read: why, and how it begins.
pub fn unreadable(why: &str, body: &str) -> (e: Error)
    ensures
        e matches Error::Malformed(t) && t@ == why@ + ": "@ + shortened(body@, 200),
{
    let mut t = why.to_owned();
    t.append(": ");
    t.append(truncate(body, 200));
    Error::Malformed(t)
}

/// A connector answers for its own market only.
pub fn serves(own: MarketKind, market: MarketKind) -> (r: Result<(), Error>)
    ensures
        match r {
            Ok(_) => market == own,
            Err(e) => market != own && (e matches Error::Unsupported { what, market: m } && what@
                == "instruments for another market"@ && m == market),
        },
{
    if market != own {
        return Err(Error::Unsupported { what: "instruments for another market", market });
    }
    Ok(())
}

/// The names of the streams that subscriptions ask for. The first that asks for a stream the
/// venue does not have fails them all.
pub fn stream_names(subs: &[Subscription]) -> (r: Result<Vec<String>, Error>)
    ensures
        match r {
            Ok(names) => names@.len() == subs@.len() && forall|i: int|
                0 <= i < subs@.len() ==> streams::stream_of(#[trigger] subs@[i]) == Some(
                    names@[i]@,
                ),
            Err(e) => exists|i: int|
                0 <= i < subs@.len() && streams::stream_of(#[trigger] subs@[i]) is None && (
                forall|j: int|
                    0 <= j < i ==> streams::stream_of(#[trigger] subs@[j]) is Some) && (
                subs@[i] matches Subscription::Candles { interval_ms, .. }
                    && e matches Error::Malformed(why) && why@ == streams::unpublished(
                    interval_ms,
                )),
        },
{
    let mut names: Vec<String> = Vec::new();
    let mut i: usize = 0;
    while i < subs.len()
        invariant
            i <= subs@.len(),
            names@.len() == i,
            forall|j: int|
                0 <= j < i ==> streams::stream_of(#[trigger] subs@[j]) == Some(names@[j]@),
        decreases subs@.len() - i,
    {
        match streams::stream_name(&subs[i]) {
            Ok(name) => {
                names.push(name);
            },
            Err(e) => {
                assert(streams::stream_of(subs@[i as int]) is None);
                return Err(e);
            },
        }
        i += 1;
    }
    Ok(names)
}

} // verus!

//! Translation between [`Subscription`] and Binance stream names.

use crate::decimal;
use crate::exchange::error::{Error, Subscription};
use crate::text;
use vstd::prelude::*;

verus! {

/// The candle intervals the venue publishes, by their length in milliseconds.
pub open spec fn published(ms: i64) -> Option<Seq<char>> {
    if ms == 60_000 {
        Some("1m"@)
    } else if ms == 180_000 {
        Some("3m"@)
    } else if ms == 300_000 {
        Some("5m"@)
    } else if ms == 900_000 {
        Some("15m"@)
    } else if ms == 1_800_000 {
        Some("30m"@)
    } else if ms == 3_600_000 {
        Some("1h"@)
    } else if ms == 7_200_000 {
        Some("2h"@)
    } else if ms == 14_400_000 {
        Some("4h"@)
    } else if ms == 21_600_000 {
        Some("6h"@)
    } else if ms == 28_800_000 {
        Some("8h"@)
    } else if ms == 43_200_000 {
        Some("12h"@)
    } else if ms == 86_400_000 {
        Some("1d"@)
    } else {
        None
    }
}

/// An interval is named by its length: so many minutes, so many hours, or a day.
pub proof fn an_interval_is_named_by_its_length(ms: i64)
    requires
        published(ms) is Some,
    ensures
        ({
            let name = published(ms)->0;
            ||| ms < 3_600_000 && ms % 60_000 == 0 && name == decimal::digits(ms as int / 60_000)
                + "m"@
            ||| 3_600_000 <= ms < 86_400_000 && ms % 3_600_000 == 0 && name == decimal::digits(
                ms as int / 3_600_000,
            ) + "h"@
            ||| ms == 86_400_000 && name == decimal::digits(1) + "d"@
        }),
{
    reveal_strlit("m");
    reveal_strlit("h");
    reveal_strlit("d");
    reveal_strlit("1m");
    reveal_strlit("3m");
    reveal_strlit("5m");
    reveal_strlit("15m");
    reveal_strlit("30m");
    reveal_strlit("1h");
    reveal_strlit("2h");
    reveal_strlit("4h");
    reveal_strlit("6h");
    reveal_strlit("8h");
    reveal_strlit("12h");
    reveal_strlit("1d");
    reveal_with_fuel(decimal::digits, 3);
    let name = published(ms)->0;
    if ms < 3_600_000 {
        assert(name =~= decimal::digits(ms as int / 60_000) + "m"@);
    } else if ms < 86_400_000 {
        assert(name =~= decimal::digits(ms as int / 3_600_000) + "h"@);
    } else {
        assert(name =~= decimal::digits(1) + "d"@);
    }
}

/// The venue publishes candles of a minute, of three, five, fifteen and thirty, of an hour, of two,
/// four, six, eight and twelve, and of a day, and of no other length.
pub proof fn these_intervals_are_published(ms: i64)
    ensures
        published(ms) is Some <==> ms % 60_000 == 0 && {
            let minutes = ms as int / 60_000;
            ||| minutes == 1 || minutes == 3 || minutes == 5 || minutes == 15 || minutes == 30
            ||| minutes == 60 || minutes == 2 * 60 || minutes == 4 * 60 || minutes == 6 * 60
            ||| minutes == 8 * 60 || minutes == 12 * 60 || minutes == 24 * 60
        },
{
}

/// The stream a subscription asks for, where the venue has one. Tickers go in lower case, and
/// book updates come every 100 ms.
pub open spec fn stream_of(sub: Subscription) -> Option<Seq<char>> {
    match sub {
        Subscription::Trades(s) => Some(text::lowercase(s.raw@) + "@aggTrade"@),
        Subscription::Book(s) => Some(text::lowercase(s.raw@) + "@depth@100ms"@),
        Subscription::Candles { symbol, interval_ms } => match published(interval_ms) {
            Some(name) => Some(text::lowercase(symbol.raw@) + "@kline_"@ + name),
            None => None,
        },
    }
}

/// What is said of an interval that the venue does not publish.
pub open spec fn unpublished(ms: i64) -> Seq<char> {
    "binance publishes no candle interval of "@ + decimal::integer_text(ms as int) + " ms"@
}

/// The name of the stream that a subscription asks for. An interval the venue does not publish
/// is refused here rather than subscribed to in vain.
pub fn stream_name(sub: &Subscription) -> (r: Result<String, Error>)
    ensures
        match r {
            Ok(name) => stream_of(*sub) == Some(name@),
            Err(e) => stream_of(*sub) is None && (sub matches Subscription::Candles {
                interval_ms,
                ..
            } && e matches Error::Malformed(why) && why@ == unpublished(*interval_ms)),
        },
        match sub {
            Subscription::Trades(s) => r matches Ok(name) && name@ == text::lowercase(s.raw@)
                + "@aggTrade"@,
            Subscription::Book(s) => r matches Ok(name) && name@ == text::lowercase(s.raw@)
                + "@depth@100ms"@,
            Subscription::Candles { symbol, interval_ms } => r matches Ok(name) ==> exists|
                interval: Seq<char>,
            |
                published(*interval_ms) == Some(interval) && name@ == #[trigger] (text::lowercase(
                    symbol.raw@,
                ) + "@kline_"@ + interval),
        },
{
    match sub {
        Subscription::Trades(s) => {
            let mut r = text::to_lowercase(s.raw.as_str());
            r.append("@aggTrade");
            Ok(r)
        },
        Subscription::Book(s) => {
            let mut r = text::to_lowercase(s.raw.as_str());
            r.append("@depth@100ms");
            Ok(r)
        },
        Subscription::Candles { symbol, interval_ms } => {
            let name = interval_name(*interval_ms)?;
            let mut r = text::to_lowercase(symbol.raw.as_str());
            r.append("@kline_");
            r.append(name);
            Ok(r)
        },
    }
}

/// Intervals have names rather than lengths, and only a fixed set is published.
fn interval_name(ms: i64) -> (r: Result<&'static str, Error>)
    ensures
        match r {
            Ok(name) => published(ms) == Some(name@),
            Err(e) => published(ms) is None && (e matches Error::Malformed(why) && why@
                == unpublished(ms)),
        },
{
    match ms {
        60_000 => Ok("1m"),
        180_000 => Ok("3m"),
        300_000 => Ok("5m"),
        900_000 => Ok("15m"),
        1_800_000 => Ok("30m"),
        3_600_000 => Ok("1h"),
        7_200_000 => Ok("2h"),
        14_400_000 => Ok("4h"),
        21_600_000 => Ok("6h"),
        28_800_000 => Ok("8h"),
        43_200_000 => Ok("12h"),
        86_400_000 => Ok("1d"),
        _ => {
            let mut why = "binance publishes no candle interval of ".to_owned();
            why.append(text::signed(ms).as_str());
            why.append(" ms");
            Err(Error::Malformed(why))
        },
    }
}

/// Names in quotes, with commas between them.
pub open spec fn quoted(names: Seq<Seq<char>>) -> Seq<char>
    decreases names.len(),
{
    if names.len() == 0 {
        Seq::empty()
    } else if names.len() == 1 {
        seq!['"'] + names[0] + seq!['"']
    } else {
        quoted(names.drop_last()) + seq![','] + seq!['"'] + names.last() + seq!['"']
    }
}

/// Every name stands in quotes of its own, in order, with one comma between two of them.
pub proof fn names_are_quoted_one_by_one(names: Seq<Seq<char>>, more: Seq<char>)
    ensures
        quoted(Seq::empty()) == Seq::<char>::empty(),
        quoted(seq![more]) == seq!['"'] + more + seq!['"'],
        names.len() > 0 ==> quoted(names.push(more)) == quoted(names) + seq![','] + quoted(
            seq![more],
        ),
{
    let all = names.push(more);
    assert(all.drop_last() =~= names);
    assert(seq![more][0] == more);
    if names.len() > 0 {
        assert(quoted(all) =~= quoted(names) + seq![','] + quoted(seq![more]));
    }
}

/// A control frame: a method, the streams it is about, and a number to tell the answer by.
pub open spec fn framed(method: Seq<char>, names: Seq<Seq<char>>, id: u64) -> Seq<char> {
    "{\"method\":\""@ + method + "\",\"params\":["@ + quoted(names) + "],\"id\":"@
        + decimal::digits(id as int) + "}"@
}

/// A `SUBSCRIBE`/`UNSUBSCRIBE` control frame.
pub fn control_frame(method: &str, streams: &[String], id: u64) -> (r: String)
    ensures
        r@ == framed(method@, streams@.map_values(|s: String| s@), id),
{
    let ghost names = streams@.map_values(|s: String| s@);
    let mut params = String::new();
    let mut i: usize = 0;
    assert(params@ =~= quoted(names.take(0)));
    while i < streams.len()
        invariant
            i <= streams@.len(),
            names == streams@.map_values(|s: String| s@),
            params@ == quoted(names.take(i as int)),
        decreases streams@.len() - i,
    {
        let ghost before = params@;
        if i > 0 {
            params.push(',');
        }
        params.push('"');
        params.append(streams[i].as_str());
        params.push('"');
        i += 1;
        proof {
            let t = names.take(i as int);
            assert(t.drop_last() =~= names.take(i - 1));
            assert(t.last() == streams@[i - 1]@);
            assert(params@ =~= quoted(t));
        }
    }
    assert(names.take(i as int) =~= names);
    let mut r = "{\"method\":\"".to_owned();
    r.append(method);
    r.append("\",\"params\":[");
    r.append(params.as_str());
    r.append("],\"id\":");
    r.append(text::unsigned(id).as_str());
    r.append("}");
    r
}

} // verus!

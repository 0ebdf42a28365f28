//! Building candles from the trade tape.
//!
//! Nothing here fabricates data. A stretch with no trades produces no candle rather than a flat
//! one: a gap on the chart is the truth.

use crate::decimal;
use crate::domain::ids::Symbol;
use crate::domain::market::{Candle, PublicTrade};
use crate::domain::time::Timestamp;
use crate::marketdata::ring;
use crate::table;
use crate::table::Table;
use std::collections::VecDeque;
use vstd::prelude::*;

verus! {

/// Candles retained per instrument.
pub const DEFAULT_CAPACITY: usize = 1_200;

/// What feeding a trade in produced.
#[derive(Debug, PartialEq, Eq)]
pub enum Update {
    /// The forming candle changed and consumers should redraw it.
    Formed(Candle),
    /// A bucket ended. The closed candle comes first, the newly opened one second.
    Closed { closed: Candle, opened: Candle },
    /// Older than the candle currently forming; ignored.
    Ignored,
}

/// The start of the bucket that a moment falls into.
pub open spec fn bucket_start(ms: int, interval_ms: int) -> int {
    ms - ms % interval_ms
}

/// A candle of one trade.
pub open spec fn opened(trade: PublicTrade, open_time: int, interval_ms: i64) -> Candle {
    Candle {
        symbol: trade.symbol,
        open_time: Timestamp(open_time as i64),
        interval_ms,
        open: trade.price,
        high: trade.price,
        low: trade.price,
        close: trade.price,
        volume: trade.qty,
        closed: false,
    }
}

/// A forming candle with one more trade in it.
pub open spec fn extended(candle: Candle, trade: PublicTrade) -> Candle {
    Candle {
        high: decimal::greater_of(candle.high, trade.price),
        low: decimal::lesser_of(candle.low, trade.price),
        close: trade.price,
        volume: decimal::sum(candle.volume, trade.qty),
        ..candle
    }
}

/// Whether a trade makes one bar of another: the volume grows by what was traded, to the last digit
/// where it has room for it, and the bar closes at the price.
pub open spec fn grows(bar: Candle, trade: PublicTrade, later: Candle) -> bool {
    &&& decimal::sum_is_exact(bar.volume.parts(), trade.qty.parts()) ==> later.volume@
        == bar.volume@ + trade.qty@
    &&& later.close == trade.price
    &&& later.open == bar.open
    &&& later.open_time == bar.open_time
}

pub open spec fn closed(candle: Candle) -> Candle {
    Candle { closed: true, ..candle }
}

/// A series after a trade: a trade of an older bucket changes nothing, one of the bucket that is
/// forming extends it, and one of a later bucket ends it and opens its own.
pub open spec fn folded(
    series: Seq<Candle>,
    trade: PublicTrade,
    interval_ms: i64,
    capacity: int,
) -> Seq<Candle> {
    let start = bucket_start(trade.ts.0 as int, interval_ms as int);
    if series.len() == 0 {
        ring::newest(seq![opened(trade, start, interval_ms)], capacity)
    } else if start < series.last().open_time.0 {
        series
    } else if start == series.last().open_time.0 {
        series.drop_last().push(extended(series.last(), trade))
    } else {
        ring::newest(
            series.drop_last().push(closed(series.last())).push(opened(trade, start, interval_ms)),
            capacity,
        )
    }
}

/// What consumers are told of it.
pub open spec fn told(series: Seq<Candle>, trade: PublicTrade, interval_ms: i64) -> Update {
    let start = bucket_start(trade.ts.0 as int, interval_ms as int);
    if series.len() == 0 {
        Update::Formed(opened(trade, start, interval_ms))
    } else if start < series.last().open_time.0 {
        Update::Ignored
    } else if start == series.last().open_time.0 {
        Update::Formed(extended(series.last(), trade))
    } else {
        Update::Closed {
            closed: closed(series.last()),
            opened: opened(trade, start, interval_ms),
        }
    }
}

/// Whether a series is one bar per bucket, in order, every bar but the last one final.
pub open spec fn well_ordered(series: Seq<Candle>, interval_ms: i64) -> bool {
    &&& forall|i: int, j: int|
        0 <= i < j < series.len() ==> (#[trigger] series[i]).open_time.0 < (
        #[trigger] series[j]).open_time.0
    &&& forall|i: int|
        0 <= i < series.len() ==> (#[trigger] series[i]).open_time.0 as int % interval_ms as int
            == 0
    &&& forall|i: int| 0 <= i < series.len() - 1 ==> (#[trigger] series[i]).closed
}

/// A series stays one bar per bucket, in order, whatever trade comes.
pub proof fn series_stays_ordered(
    series: Seq<Candle>,
    trade: PublicTrade,
    interval_ms: i64,
    capacity: int,
)
    requires
        well_ordered(series, interval_ms),
        interval_ms > 0,
        capacity > 0,
        i64::MIN <= bucket_start(trade.ts.0 as int, interval_ms as int),
    ensures
        well_ordered(folded(series, trade, interval_ms, capacity), interval_ms),
{
    let ms = trade.ts.0 as int;
    let n = interval_ms as int;
    let start = bucket_start(ms, n);
    vstd::arithmetic::div_mod::lemma_fundamental_div_mod(ms, n);
    vstd::arithmetic::div_mod::lemma_mod_bound(ms, n);
    vstd::arithmetic::div_mod::lemma_mod_multiples_basic(ms / n, n);
    assert(start == (ms / n) * n) by (nonlinear_arith)
        requires
            ms == n * (ms / n) + ms % n,
            start == ms - ms % n,
    ;
    assert(start % n == 0);
    if series.len() > 0 && start > series.last().open_time.0 {
        let all = series.drop_last().push(closed(series.last())).push(
            opened(trade, start, interval_ms),
        );
        assert forall|i: int| 0 <= i < all.len() - 1 implies (#[trigger] all[i]).closed by {
            if i < series.len() - 1 {
                assert(all[i] == series[i]);
            }
        }
        assert forall|i: int, j: int| 0 <= i < j < all.len() implies (
        #[trigger] all[i]).open_time.0 < (#[trigger] all[j]).open_time.0 by {
            assert(i < series.len());
            assert(all[i].open_time == series[i].open_time);
            if j < series.len() {
                assert(all[j].open_time == series[j].open_time);
            } else if i < series.len() - 1 {
                assert(series[i].open_time.0 < series[series.len() - 1].open_time.0);
            }
        }
        assert forall|i: int| 0 <= i < all.len() implies (#[trigger] all[i]).open_time.0 as int % n
            == 0 by {
            if i < series.len() {
                assert(all[i].open_time == series[i].open_time);
            }
        }
    } else if series.len() > 0 && start == series.last().open_time.0 {
        let new = series.drop_last().push(extended(series.last(), trade));
        assert forall|i: int, j: int| 0 <= i < j < new.len() implies (
        #[trigger] new[i]).open_time.0 < (#[trigger] new[j]).open_time.0 by {
            assert(new[i].open_time == series[i].open_time);
            assert(new[j].open_time == series[j].open_time);
        }
        assert forall|i: int| 0 <= i < new.len() - 1 implies (#[trigger] new[i]).closed by {
            assert(new[i] == series[i]);
        }
        assert forall|i: int| 0 <= i < new.len() implies (#[trigger] new[i]).open_time.0 as int % n
            == 0 by {
            assert(new[i].open_time == series[i].open_time);
        }
    }
}

/// A trade never changes a bar that was final: whatever comes, every bar but the last one is
/// still there as it was, unless it was dropped as the oldest.
pub proof fn drawn_bars_are_final(
    series: Seq<Candle>,
    trade: PublicTrade,
    interval_ms: i64,
    capacity: int,
    i: int,
)
    requires
        0 <= i < series.len() - 1,
        1 <= series.len() <= capacity,
    ensures
        ({
            let later = folded(series, trade, interval_ms, capacity);
            ||| i < later.len() && later[i] == series[i]
            ||| later.len() == capacity && (i == 0 || later[i - 1] == series[i])
        }),
{
}

/// Every price that went into a bar lies between its low and its high.
pub proof fn bar_spans_its_trades(candle: Candle, trade: PublicTrade, price: int)
    requires
        candle.low@ <= price <= candle.high@ || price == trade.price@,
    ensures
        extended(candle, trade).low@ <= price <= extended(candle, trade).high@,
{
}

/// Whether a bar's open and close lie between its low and its high.
pub open spec fn spans_itself(candle: Candle) -> bool {
    &&& candle.low@ <= candle.open@ <= candle.high@
    &&& candle.low@ <= candle.close@ <= candle.high@
}

/// Whether a series is what a tape can leave: one bar per bucket, in order, none beyond the
/// capacity, every bar but the last one final and the last one forming.
pub open spec fn kept_well(series: Seq<Candle>, interval_ms: i64, capacity: int) -> bool {
    &&& well_ordered(series, interval_ms)
    &&& series.len() <= capacity
    &&& series.len() > 0 ==> !series.last().closed
    &&& forall|i: int| 0 <= i < series.len() ==> spans_itself(#[trigger] series[i])
}

/// A trade older than the bar that is forming changes nothing.
pub proof fn an_old_print_changes_nothing(
    series: Seq<Candle>,
    trade: PublicTrade,
    interval_ms: i64,
    capacity: int,
)
    requires
        series.len() > 0,
        bucket_start(trade.ts.0 as int, interval_ms as int) < series.last().open_time.0,
    ensures
        folded(series, trade, interval_ms, capacity) == series,
        told(series, trade, interval_ms) is Ignored,
{
}

/// Whatever trades come, in whatever order of time, every series is kept well. This leaves out a
/// trade that cannot be folded in.
pub proof fn any_tape_keeps_the_series(set: CandleSetView, trades: Seq<PublicTrade>, key: Seq<char>)
    requires
        set.interval_ms > 0,
        set.capacity > 0,
        set.series == Map::<Seq<char>, Seq<Candle>>::empty(),
        forall|i: int|
            0 <= i < trades.len() ==> set.fed(trades.take(i)).folds(#[trigger] trades[i]),
    ensures
        set.fed(trades).interval_ms == set.interval_ms,
        set.fed(trades).capacity == set.capacity,
        kept_well(set.fed(trades).of(key), set.interval_ms, set.capacity as int),
    decreases trades.len(),
{
    if trades.len() > 0 {
        let before = trades.drop_last();
        let last = trades.last();
        assert forall|i: int| 0 <= i < before.len() implies set.fed(before.take(i)).folds(
            #[trigger] before[i],
        ) by {
            assert(before.take(i) =~= trades.take(i));
            assert(before[i] == trades[i]);
        }
        any_tape_keeps_the_series(set, before, key);
        assert(trades.take(trades.len() - 1) =~= before);
        assert(set.fed(before).folds(trades[trades.len() - 1]));
        if last.symbol@.key() == key {
            lemma_kept_well(set.fed(before).of(key), last, set.interval_ms, set.capacity as int);
        }
    }
}

proof fn lemma_kept_well(
    series: Seq<Candle>,
    trade: PublicTrade,
    interval_ms: i64,
    capacity: int,
)
    requires
        kept_well(series, interval_ms, capacity),
        interval_ms > 0,
        capacity > 0,
        i64::MIN <= bucket_start(trade.ts.0 as int, interval_ms as int),
    ensures
        kept_well(folded(series, trade, interval_ms, capacity), interval_ms, capacity),
{
    series_stays_ordered(series, trade, interval_ms, capacity);
    let start = bucket_start(trade.ts.0 as int, interval_ms as int);
    let new = folded(series, trade, interval_ms, capacity);
    if series.len() > 0 && start > series.last().open_time.0 {
        let all = series.drop_last().push(closed(series.last())).push(
            opened(trade, start, interval_ms),
        );
        assert forall|i: int| 0 <= i < all.len() implies spans_itself(#[trigger] all[i]) by {
            if i < series.len() - 1 {
                assert(all[i] == series[i]);
            } else if i == series.len() - 1 {
                assert(spans_itself(series[i]));
            }
        }
        assert forall|i: int| 0 <= i < new.len() implies spans_itself(#[trigger] new[i]) by {
            assert(new[i] == all[all.len() - new.len() + i]);
        }
        assert(new.last() == all.last());
    } else if series.len() > 0 && start == series.last().open_time.0 {
        assert forall|i: int| 0 <= i < new.len() implies spans_itself(#[trigger] new[i]) by {
            if i < series.len() - 1 {
                assert(new[i] == series[i]);
            } else {
                assert(spans_itself(series[i]));
            }
        }
    }
}

/// Whether a trade comes too late to be counted: one of its instrument came before it that belongs
/// to a later bucket.
pub open spec fn comes_late(earlier: Seq<PublicTrade>, trade: PublicTrade, interval_ms: i64) -> bool {
    exists|j: int|
        0 <= j < earlier.len() && (#[trigger] earlier[j]).symbol@.key() == trade.symbol@.key()
            && earlier[j].ts.0 as int / interval_ms as int > trade.ts.0 as int / interval_ms as int
}

/// The trades of an instrument on a tape that belong to its `n`th bucket and did not come too late,
/// in order.
pub open spec fn counted(
    trades: Seq<PublicTrade>,
    key: Seq<char>,
    n: int,
    interval_ms: i64,
) -> Seq<PublicTrade>
    decreases trades.len(),
{
    if trades.len() == 0 {
        Seq::empty()
    } else {
        let rest = counted(trades.drop_last(), key, n, interval_ms);
        let last = trades.last();
        if last.symbol@.key() == key && last.ts.0 as int / interval_ms as int == n && !comes_late(
            trades.drop_last(),
            last,
            interval_ms,
        ) {
            rest.push(last)
        } else {
            rest
        }
    }
}

/// All the quantities of some trades, added one after the other.
pub open spec fn traded(trades: Seq<PublicTrade>) -> decimal::Decimal
    decreases trades.len(),
{
    if trades.len() <= 1 {
        trades[0].qty
    } else {
        decimal::sum(traded(trades.drop_last()), trades.last().qty)
    }
}

/// Whether a bar shows some trades and nothing else: it opens with the first and closes with the
/// last, reaches from the lowest price to the highest, and its volume is all that was traded,
/// bought or sold.
pub open spec fn shows(bar: Candle, trades: Seq<PublicTrade>) -> bool {
    &&& trades.len() > 0
    &&& bar.symbol == trades[0].symbol
    &&& bar.open == trades[0].price
    &&& bar.close == trades.last().price
    &&& bar.volume == traded(trades)
    &&& forall|j: int|
        0 <= j < trades.len() ==> bar.low@ <= (#[trigger] trades[j]).price@ <= bar.high@
    &&& exists|j: int| 0 <= j < trades.len() && bar.low == (#[trigger] trades[j]).price
    &&& exists|j: int| 0 <= j < trades.len() && bar.high == (#[trigger] trades[j]).price
}

/// Whether a series is what a tape makes of an instrument: every bar shows the trades that its
/// bucket counted, no counted trade is left out but with the bars that were dropped as the oldest,
/// and the last bar is that of the latest bucket.
pub open spec fn drawn_from(
    series: Seq<Candle>,
    trades: Seq<PublicTrade>,
    key: Seq<char>,
    interval_ms: i64,
    capacity: int,
) -> bool {
    let d = interval_ms as int;
    &&& forall|i: int|
        0 <= i < series.len() ==> {
            &&& (#[trigger] series[i]).interval_ms == interval_ms
            &&& series[i].open_time.0 == (series[i].open_time.0 as int / d) * d
            &&& shows(
                series[i],
                counted(trades, key, series[i].open_time.0 as int / d, interval_ms),
            )
        }
    &&& forall|n: int|
        (#[trigger] counted(trades, key, n, interval_ms)).len() > 0 ==> has_bar(series, n * d) || (
        series.len() == capacity && n * d < series[0].open_time.0)
    &&& forall|j: int|
        0 <= j < trades.len() && (#[trigger] trades[j]).symbol@.key() == key ==> series.len() > 0
            && trades[j].ts.0 as int / d <= series.last().open_time.0 as int / d
}

/// Whether a series has a bar of the bucket that starts at a moment.
pub open spec fn has_bar(series: Seq<Candle>, start: int) -> bool {
    exists|i: int| 0 <= i < series.len() && (#[trigger] series[i]).open_time.0 == start
}

/// After any tape, a bar opens with the first trade of its bucket and closes with the last, reaches
/// over all their prices and no further, and its volume is the sum of their quantities whichever
/// side took; only trades that came after one of a later bucket are not among them. There is a bar
/// for every bucket with such a trade, until it is dropped as the oldest, and there is no other.
/// This leaves out a trade that cannot be folded in.
pub proof fn bars_show_the_tape(set: CandleSetView, trades: Seq<PublicTrade>, key: Seq<char>)
    requires
        set.interval_ms > 0,
        set.capacity > 0,
        set.series == Map::<Seq<char>, Seq<Candle>>::empty(),
        forall|i: int|
            0 <= i < trades.len() ==> set.fed(trades.take(i)).folds(#[trigger] trades[i]),
    ensures
        drawn_from(
            set.fed(trades).of(key),
            trades,
            key,
            set.interval_ms,
            set.capacity as int,
        ),
    decreases trades.len(),
{
    if trades.len() > 0 {
        let before = trades.drop_last();
        let last = trades.last();
        assert forall|i: int| 0 <= i < before.len() implies set.fed(before.take(i)).folds(
            #[trigger] before[i],
        ) by {
            assert(before.take(i) =~= trades.take(i));
            assert(before[i] == trades[i]);
        }
        bars_show_the_tape(set, before, key);
        any_tape_keeps_the_series(set, before, key);
        assert(trades.take(trades.len() - 1) =~= before);
        assert(set.fed(before).folds(trades[trades.len() - 1]));
        lemma_drawn_on(
            set.fed(before).of(key),
            before,
            last,
            key,
            set.interval_ms,
            set.capacity as int,
        );
        assert(before.push(last) =~= trades);
    } else {
        assert forall|n: int| (#[trigger] counted(trades, key, n, set.interval_ms)).len()
            == 0 by {}
    }
}

/// A bucket that no trade of the instrument belongs to counts none, and one that counts some is
/// that of a trade on the tape.
proof fn lemma_counted(trades: Seq<PublicTrade>, key: Seq<char>, n: int, interval_ms: i64)
    ensures
        counted(trades, key, n, interval_ms).len() > 0 ==> exists|j: int|
            0 <= j < trades.len() && (#[trigger] trades[j]).symbol@.key() == key
                && trades[j].ts.0 as int / interval_ms as int == n,
    decreases trades.len(),
{
    if trades.len() > 0 {
        let rest = trades.drop_last();
        lemma_counted(rest, key, n, interval_ms);
        if counted(rest, key, n, interval_ms).len() > 0 {
            let j = choose|j: int|
                0 <= j < rest.len() && (#[trigger] rest[j]).symbol@.key() == key
                    && rest[j].ts.0 as int / interval_ms as int == n;
            assert(trades[j] == rest[j]);
        } else if counted(trades, key, n, interval_ms).len() > 0 {
            assert(trades[trades.len() - 1] == trades.last());
        }
    }
}

proof fn lemma_bucket(ms: int, d: int)
    requires
        d > 0,
    ensures
        bucket_start(ms, d) == (ms / d) * d,
        bucket_start(ms, d) / d == ms / d,
{
    vstd::arithmetic::div_mod::lemma_fundamental_div_mod(ms, d);
    vstd::arithmetic::div_mod::lemma_div_multiples_vanish(ms / d, d);
    assert(d * (ms / d) == (ms / d) * d) by (nonlinear_arith);
}

proof fn lemma_in_order(a: int, b: int, d: int)
    requires
        d > 0,
    ensures
        a < b <==> a * d < b * d,
        a == b <==> a * d == b * d,
{
    assert(a < b ==> a * d < b * d) by (nonlinear_arith)
        requires
            d > 0,
    ;
    assert(b < a ==> b * d < a * d) by (nonlinear_arith)
        requires
            d > 0,
    ;
}

/// A bar that shows some trades shows one more after it was folded in.
proof fn lemma_shows_more(bar: Candle, trades: Seq<PublicTrade>, trade: PublicTrade)
    requires
        shows(bar, trades),
    ensures
        shows(extended(bar, trade), trades.push(trade)),
{
    let all = trades.push(trade);
    let more = extended(bar, trade);
    assert(all.drop_last() =~= trades);
    assert forall|j: int| 0 <= j < all.len() implies more.low@ <= (#[trigger] all[j]).price@
        <= more.high@ by {
        if j < trades.len() {
            assert(all[j] == trades[j]);
        }
    }
    let i = choose|j: int| 0 <= j < trades.len() && bar.low == (#[trigger] trades[j]).price;
    let k = choose|j: int| 0 <= j < trades.len() && bar.high == (#[trigger] trades[j]).price;
    assert(all[i] == trades[i] && all[k] == trades[k]);
    assert(all[trades.len() as int] == trade);
}

proof fn lemma_shows_first(trade: PublicTrade, start: int, interval_ms: i64)
    ensures
        shows(opened(trade, start, interval_ms), seq![trade]),
{
    let one = seq![trade];
    assert(one[0].price == trade.price);
}

#[verifier::rlimit(40)]
proof fn lemma_drawn_on(
    series: Seq<Candle>,
    before: Seq<PublicTrade>,
    trade: PublicTrade,
    key: Seq<char>,
    interval_ms: i64,
    capacity: int,
)
    requires
        interval_ms > 0,
        capacity > 0,
        drawn_from(series, before, key, interval_ms, capacity),
        kept_well(series, interval_ms, capacity),
        trade.symbol@.key() == key ==> i64::MIN <= bucket_start(
            trade.ts.0 as int,
            interval_ms as int,
        ),
    ensures
        drawn_from(
            if trade.symbol@.key() == key {
                folded(series, trade, interval_ms, capacity)
            } else {
                series
            },
            before.push(trade),
            key,
            interval_ms,
            capacity,
        ),
{
    let trades = before.push(trade);
    let d = interval_ms as int;
    let m = trade.ts.0 as int / d;
    let start = bucket_start(trade.ts.0 as int, d);
    let late = comes_late(before, trade, interval_ms);
    assert(trades.drop_last() =~= before);
    assert(trades.last() == trade);
    lemma_bucket(trade.ts.0 as int, d);
    let mine = trade.symbol@.key() == key;
    assert forall|n: int| #[trigger] counted(trades, key, n, interval_ms) == if mine && n == m
        && !late {
        counted(before, key, n, interval_ms).push(trade)
    } else {
        counted(before, key, n, interval_ms)
    } by {}
    let new = if mine {
        folded(series, trade, interval_ms, capacity)
    } else {
        series
    };
    if series.len() > 0 {
        let top = series.last().open_time.0 as int / d;
        assert(series[series.len() - 1] == series.last());
        lemma_counted(before, key, top, interval_ms);
        lemma_in_order(m, top, d);
        if mine {
            assert(late == (m < top));
        }
    } else if mine {
        assert(!late);
    }
    if !mine || (series.len() > 0 && start < series.last().open_time.0) {
        assert(new == series);
        assert forall|n: int| #[trigger] counted(trades, key, n, interval_ms) == counted(
            before,
            key,
            n,
            interval_ms,
        ) by {}
        assert forall|n: int|
            (#[trigger] counted(trades, key, n, interval_ms)).len() > 0 implies has_bar(
            new,
            n * d,
        ) || (new.len() == capacity && n * d < new[0].open_time.0) by {
            assert(counted(before, key, n, interval_ms).len() > 0);
        }
        assert forall|j: int|
            0 <= j < trades.len() && (#[trigger] trades[j]).symbol@.key() == key implies new.len()
            > 0 && trades[j].ts.0 as int / d <= new.last().open_time.0 as int / d by {
            if j < before.len() {
                assert(trades[j] == before[j]);
            }
        }
    } else if series.len() > 0 && start == series.last().open_time.0 {
        lemma_shows_more(series.last(), counted(before, key, m, interval_ms), trade);
        assert forall|i: int| 0 <= i < new.len() implies {
            &&& (#[trigger] new[i]).interval_ms == interval_ms
            &&& new[i].open_time.0 == (new[i].open_time.0 as int / d) * d
            &&& shows(new[i], counted(trades, key, new[i].open_time.0 as int / d, interval_ms))
        } by {
            assert(new[i].open_time == series[i].open_time);
            if i < series.len() - 1 {
                assert(new[i] == series[i]);
                assert(series[i].open_time.0 < series[series.len() - 1].open_time.0);
            }
        }
        assert forall|n: int|
            (#[trigger] counted(trades, key, n, interval_ms)).len() > 0 implies has_bar(
            new,
            n * d,
        ) || (new.len() == capacity && n * d < new[0].open_time.0) by {
            if n == m {
                assert(new[new.len() - 1].open_time.0 == n * d);
            } else {
                assert(counted(before, key, n, interval_ms).len() > 0);
                if has_bar(series, n * d) {
                    let i = choose|i: int|
                        0 <= i < series.len() && (#[trigger] series[i]).open_time.0 == n * d;
                    assert(new[i].open_time == series[i].open_time);
                } else {
                    assert(new[0].open_time == series[0].open_time);
                }
            }
        }
        assert forall|j: int|
            0 <= j < trades.len() && (#[trigger] trades[j]).symbol@.key() == key implies new.len()
            > 0 && trades[j].ts.0 as int / d <= new.last().open_time.0 as int / d by {
            if j < before.len() {
                assert(trades[j] == before[j]);
            }
        }
    } else {
        lemma_drawn_next(series, before, trade, key, interval_ms, capacity);
    }
}

/// A trade of a bucket later than all adds a bar.
#[verifier::rlimit(40)]
proof fn lemma_drawn_next(
    series: Seq<Candle>,
    before: Seq<PublicTrade>,
    trade: PublicTrade,
    key: Seq<char>,
    interval_ms: i64,
    capacity: int,
)
    requires
        interval_ms > 0,
        capacity > 0,
        drawn_from(series, before, key, interval_ms, capacity),
        kept_well(series, interval_ms, capacity),
        trade.symbol@.key() == key,
        i64::MIN <= bucket_start(trade.ts.0 as int, interval_ms as int),
        series.len() > 0 ==> bucket_start(trade.ts.0 as int, interval_ms as int)
            > series.last().open_time.0,
    ensures
        drawn_from(
            folded(series, trade, interval_ms, capacity),
            before.push(trade),
            key,
            interval_ms,
            capacity,
        ),
{
    let trades = before.push(trade);
    let d = interval_ms as int;
    let m = trade.ts.0 as int / d;
    let start = bucket_start(trade.ts.0 as int, d);
    assert(trades.drop_last() =~= before);
    assert(trades.last() == trade);
    lemma_bucket(trade.ts.0 as int, d);
    assert forall|j: int|
        0 <= j < before.len() && (#[trigger] before[j]).symbol@.key() == key implies before[j].ts.0
        as int / d < m by {
        let top = series.last().open_time.0 as int / d;
        assert(series[series.len() - 1] == series.last());
        lemma_in_order(top, m, d);
    }
    assert(!comes_late(before, trade, interval_ms));
    lemma_counted(before, key, m, interval_ms);
    assert(counted(before, key, m, interval_ms) =~= Seq::<PublicTrade>::empty());
    assert(counted(trades, key, m, interval_ms) =~= seq![trade]);
    lemma_shows_first(trade, start, interval_ms);
    let all = if series.len() == 0 {
        seq![opened(trade, start, interval_ms)]
    } else {
        series.drop_last().push(closed(series.last())).push(opened(trade, start, interval_ms))
    };
    let new = folded(series, trade, interval_ms, capacity);
    let gone = all.len() - new.len();
    assert(new =~= all.skip(gone));
    assert forall|i: int| 0 <= i < series.len() implies {
        &&& all[i].open_time == (#[trigger] series[i]).open_time
        &&& all[i].interval_ms == series[i].interval_ms
        &&& forall|c: Seq<PublicTrade>| shows(series[i], c) ==> #[trigger] shows(all[i], c)
    } by {
        if i < series.len() - 1 {
            assert(all[i] == series[i]);
        }
    }
    assert(all[series.len() as int] == opened(trade, start, interval_ms));
    assert forall|i: int| 0 <= i < new.len() implies {
        &&& (#[trigger] new[i]).interval_ms == interval_ms
        &&& new[i].open_time.0 == (new[i].open_time.0 as int / d) * d
        &&& shows(new[i], counted(trades, key, new[i].open_time.0 as int / d, interval_ms))
    } by {
        let k = i + gone;
        assert(new[i] == all[k]);
        if k < series.len() {
            let n = series[k].open_time.0 as int / d;
            assert(series[k].open_time.0 <= series[series.len() - 1].open_time.0);
            assert(n != m);
            assert(counted(trades, key, n, interval_ms) == counted(before, key, n, interval_ms));
            assert(shows(series[k], counted(before, key, n, interval_ms)));
        }
    }
    assert forall|n: int|
        (#[trigger] counted(trades, key, n, interval_ms)).len() > 0 implies has_bar(new, n * d)
        || (new.len() == capacity && n * d < new[0].open_time.0) by {
        if n == m {
            assert(new[new.len() - 1] == all[series.len() as int]);
            assert(new[new.len() - 1].open_time.0 == n * d);
        } else {
            assert(counted(before, key, n, interval_ms).len() > 0);
            assert(new[0] == all[gone]);
            if has_bar(series, n * d) {
                let i = choose|i: int|
                    0 <= i < series.len() && (#[trigger] series[i]).open_time.0 == n * d;
                if i >= gone {
                    assert(new[i - gone] == all[i]);
                    assert(new[i - gone].open_time.0 == n * d);
                } else {
                    if gone < series.len() {
                        assert(series[i].open_time.0 < series[gone].open_time.0);
                    }
                }
            } else {
                lemma_counted(before, key, n, interval_ms);
                if gone < series.len() {
                    assert(series[0].open_time.0 <= series[gone].open_time.0);
                } else {
                    assert(series[0].open_time.0 <= series[series.len() - 1].open_time.0);
                }
            }
        }
    }
    assert forall|j: int|
        0 <= j < trades.len() && (#[trigger] trades[j]).symbol@.key() == key implies new.len() > 0
        && trades[j].ts.0 as int / d <= new.last().open_time.0 as int / d by {
        assert(new.last() == all[series.len() as int]);
        if j < before.len() {
            assert(trades[j] == before[j]);
        }
    }
}

/// A trade is left out only where its bucket starts before time can be told, or where the volume of
/// its bar would leave the range of decimals.
pub proof fn what_is_left_out(set: CandleSetView, trade: PublicTrade)
    requires
        set.interval_ms > 0,
    ensures
        ({
            let d = set.interval_ms as int;
            let start = (trade.ts.0 as int / d) * d;
            let series = set.of(trade.symbol@.key());
            set.folds(trade) <==> {
                &&& start >= i64::MIN
                &&& series.len() == 0 || series.last().open_time.0 != start || decimal::sum_of(
                    series.last().volume.parts(),
                    trade.qty.parts(),
                ) is Some
            }
        }),
{
    lemma_bucket(trade.ts.0 as int, set.interval_ms as int);
}

/// What consumers are told is what is then there: a bar that formed is the last one, and of a
/// bucket that ended they get the bar as it stays, and the one after it.
pub proof fn consumers_are_told_what_is_there(
    series: Seq<Candle>,
    trade: PublicTrade,
    interval_ms: i64,
    capacity: int,
)
    requires
        capacity > 0,
    ensures
        ({
            let later = folded(series, trade, interval_ms, capacity);
            match told(series, trade, interval_ms) {
                Update::Formed(bar) => later.len() > 0 && bar == later.last() && !(series.len() > 0
                    && bar.open_time != series.last().open_time),
                Update::Closed { closed, opened } => {
                    &&& later.len() > 0 && opened == later.last()
                    &&& capacity > 1 ==> later.len() > 1 && closed == later[later.len() - 2]
                    &&& series.len() > 0 && closed == (Candle { closed: true, ..series.last() })
                },
                Update::Ignored => later == series,
            }
        }),
{
}

/// Live candle series, one per instrument.
pub struct CandleSet {
    interval_ms: i64,
    capacity: usize,
    series: Table<VecDeque<Candle>>,
}

/// What a [`CandleSet`] holds, by the key of the instrument.
#[verifier::ext_equal]
pub struct CandleSetView {
    pub interval_ms: i64,
    pub capacity: usize,
    pub series: Map<Seq<char>, Seq<Candle>>,
}

impl View for CandleSet {
    type V = CandleSetView;

    closed spec fn view(&self) -> CandleSetView {
        CandleSetView {
            interval_ms: self.interval_ms,
            capacity: self.capacity,
            series: self.series@.map_values(|s: VecDeque<Candle>| s@),
        }
    }
}

impl CandleSetView {
    /// The candles of an instrument, oldest first.
    pub open spec fn of(self, key: Seq<char>) -> Seq<Candle> {
        if self.series.contains_key(key) {
            self.series[key]
        } else {
            Seq::empty()
        }
    }

    /// The series after a trade.
    pub open spec fn after(self, trade: PublicTrade) -> CandleSetView {
        CandleSetView {
            series: self.series.insert(
                trade.symbol@.key(),
                folded(
                    self.of(trade.symbol@.key()),
                    trade,
                    self.interval_ms,
                    self.capacity as int,
                ),
            ),
            ..self
        }
    }

    /// The series after trades, in order.
    pub open spec fn fed(self, trades: Seq<PublicTrade>) -> CandleSetView
        decreases trades.len(),
    {
        if trades.len() == 0 {
            self
        } else {
            self.fed(trades.drop_last()).after(trades.last())
        }
    }

    /// Whether a trade is folded in: its bucket has a start, and there is a volume with it.
    pub open spec fn folds(self, trade: PublicTrade) -> bool {
        let start = bucket_start(trade.ts.0 as int, self.interval_ms as int);
        let series = self.of(trade.symbol@.key());
        &&& i64::MIN <= start
        &&& series.len() > 0 && start == series.last().open_time.0 ==> decimal::sum_of(
            series.last().volume.parts(),
            trade.qty.parts(),
        ) is Some
    }

    /// Whether a trade is sure to be folded in: its bucket has a start, and the volume stays within the
    /// range of decimals.
    pub open spec fn takes(self, trade: PublicTrade) -> bool {
        let start = bucket_start(trade.ts.0 as int, self.interval_ms as int);
        let series = self.of(trade.symbol@.key());
        &&& i64::MIN <= start
        &&& series.len() > 0 && start == series.last().open_time.0 ==> decimal::in_range(
            series.last().volume@ + trade.qty@,
        )
    }
}

impl CandleSet {
    pub closed spec fn wf(&self) -> bool {
        &&& self.series.wf()
        &&& self.interval_ms > 0
        &&& self.capacity > 0
        &&& forall|k: Seq<char>| #[trigger]
            self@.series.contains_key(k) ==> self@.series[k].len() > 0
    }

    /// The keys in the order they are walked in.
    pub closed spec fn order(&self) -> Seq<Seq<char>> {
        self.series.order()
    }

    /// Buckets and the ring have a size, a listed instrument has a candle, and the walk visits
    /// every key once, in text order.
    pub proof fn lemma_order(&self)
        requires
            self.wf(),
        ensures
            self@.interval_ms > 0,
            self@.capacity > 0,
            table::ascending(self.order()),
            forall|k: Seq<char>| #[trigger]
                self@.series.contains_key(k) <==> self.order().contains(k),
            forall|k: Seq<char>| #[trigger]
                self@.series.contains_key(k) ==> self@.series[k].len() > 0,
    {
        self.series.lemma_order();
        assert forall|k: Seq<char>| #[trigger]
            self@.series.contains_key(k) <==> self.order().contains(k) by {
            assert(self@.series.contains_key(k) == self.series@.contains_key(k));
        }
    }

    /// `interval_ms` must be positive; anything else would put every trade in one bucket, and is
    /// taken for one.
    pub fn new(interval_ms: i64, capacity: usize) -> (r: CandleSet)
        ensures
            r.wf(),
            r@.interval_ms == if interval_ms < 1 {
                1
            } else {
                interval_ms
            },
            r@.capacity == if capacity < 1 {
                1
            } else {
                capacity
            },
            r@.series == Map::<Seq<char>, Seq<Candle>>::empty(),
    {
        let r = CandleSet {
            interval_ms: if interval_ms < 1 {
                1
            } else {
                interval_ms
            },
            capacity: if capacity < 1 {
                1
            } else {
                capacity
            },
            series: Table::new(),
        };
        assert(r@.series =~= Map::<Seq<char>, Seq<Candle>>::empty());
        r
    }

    pub fn interval_ms(&self) -> (r: i64)
        ensures
            r == self@.interval_ms,
    {
        self.interval_ms
    }

    /// Fold one trade into its bucket, unless its bucket has no start or its volume leaves the
    /// range of decimals; then nothing changes.
    pub fn try_on_trade(&mut self, trade: &PublicTrade) -> (r: Option<Update>)
        requires
            old(self).wf(),
        ensures
            final(self).wf(),
            old(self)@.takes(*trade) ==> r is Some,
            match r {
                Some(update) => {
                    &&& old(self)@.folds(*trade)
                    &&& update == told(
                        old(self)@.of(trade.symbol@.key()),
                        *trade,
                        old(self)@.interval_ms,
                    )
                    &&& final(self)@ == old(self)@.after(*trade)
                },
                None => !old(self)@.folds(*trade) && final(self)@ == old(self)@,
            },
            ({
                let series = old(self)@.of(trade.symbol@.key());
                series.len() > 0 ==> (r matches Some(Update::Formed(bar)) ==> grows(
                    series.last(),
                    *trade,
                    bar,
                ))
            }),
    {
        let back: i64 = remainder(trade.ts.0, self.interval_ms);
        let start: i128 = trade.ts.0 as i128 - back as i128;
        if start < i64::MIN as i128 {
            return None;
        }
        let open_time = Timestamp(start as i64);
        let interval_ms: i64 = self.interval_ms;
        let capacity: usize = self.capacity;
        let key = trade.symbol.key();
        let ghost k = key@;
        let ghost before = self@;
        let ghost s0 = self@.of(k);
        if let Some(series) = self.series.get(key.as_str()) {
            let n = series.len();
            if n > 0 && open_time.0 == series[n - 1].open_time.0 && series[n
                - 1].volume.checked_add(trade.qty).is_none() {
                return None;
            }
        } else {
            self.series.insert(key.clone(), VecDeque::new());
        }
        assert(self.series@[k]@ =~= s0);
        let r = match self.series.get_mut(key.as_str()) {
            Some(series) => fold(series, trade, open_time, interval_ms, capacity),
            None => Update::Ignored,
        };
        proof {
            assert(self@.series =~= before.series.insert(
                k,
                folded(s0, *trade, interval_ms, capacity as int),
            ));
        }
        Some(r)
    }

    /// Fold one trade into its bucket.
    pub fn on_trade(&mut self, trade: &PublicTrade) -> (r: Update)
        requires
            old(self).wf(),
            old(self)@.takes(*trade),
        ensures
            final(self).wf(),
            r == told(old(self)@.of(trade.symbol@.key()), *trade, old(self)@.interval_ms),
            final(self)@ == old(self)@.after(*trade),
    {
        self.try_on_trade(trade).unwrap()
    }

    /// Every candle for an instrument, oldest first.
    pub fn iter(&self, key: &str) -> (r: Vec<Candle>)
        requires
            self.wf(),
        ensures
            r@ == self@.of(key@),
    {
        let mut r: Vec<Candle> = Vec::new();
        match self.series.get(key) {
            Some(series) => {
                let mut i: usize = 0;
                while i < series.len()
                    invariant
                        i <= series@.len(),
                        r@ == series@.take(i as int),
                    decreases series@.len() - i,
                {
                    r.push(series[i].clone());
                    i += 1;
                    assert(series@.take(i as int) =~= series@.take(i - 1).push(series@[i - 1]));
                }
                assert(series@.take(i as int) =~= series@);
            },
            None => {},
        }
        assert(r@ =~= self@.of(key@));
        r
    }

    /// The candle currently forming, if any.
    pub fn forming(&self, key: &str) -> (r: Option<&Candle>)
        requires
            self.wf(),
        ensures
            match r {
                Some(c) => self@.of(key@).len() > 0 && *c == self@.of(key@).last(),
                None => self@.of(key@).len() == 0,
            },
    {
        match self.series.get(key) {
            Some(series) => {
                let n = series.len();
                if n == 0 {
                    None
                } else {
                    Some(&series[n - 1])
                }
            },
            None => None,
        }
    }

    pub fn len(&self, key: &str) -> (r: usize)
        requires
            self.wf(),
        ensures
            r == self@.of(key@).len(),
    {
        match self.series.get(key) {
            Some(series) => series.len(),
            None => 0,
        }
    }

    pub fn is_empty(&self, key: &str) -> (r: bool)
        requires
            self.wf(),
        ensures
            r == (self@.of(key@).len() == 0),
    {
        self.len(key) == 0
    }

    /// Instruments with at least one candle, in text order.
    pub fn keys(&self) -> (r: Vec<String>)
        requires
            self.wf(),
        ensures
            table::texts(r@) == self.order(),
    {
        let mut r: Vec<String> = Vec::new();
        let mut i: usize = 0;
        assert(table::texts(r@) =~= self.order().take(0));
        while i < self.series.len()
            invariant
                self.wf(),
                i <= self.order().len(),
                table::texts(r@) == self.order().take(i as int),
            decreases self.order().len() - i,
        {
            let ghost before = r@;
            r.push(self.series.key_at(i).clone());
            i += 1;
            assert(table::texts(r@) =~= table::texts(before).push(self.order()[i - 1]));
            assert(self.order().take(i as int) =~= self.order().take(i - 1).push(
                self.order()[i - 1],
            ));
        }
        assert(self.order().take(i as int) =~= self.order());
        r
    }

    /// Forget an instrument's history. Used when its book resyncs from scratch.
    pub fn clear(&mut self, symbol: &Symbol)
        requires
            old(self).wf(),
        ensures
            final(self).wf(),
            final(self)@ == (CandleSetView {
                series: old(self)@.series.remove(symbol@.key()),
                ..old(self)@
            }),
    {
        let ghost start = self@;
        let _ = self.series.remove(symbol.key().as_str());
        assert(self@.series =~= start.series.remove(symbol@.key()));
    }
}

/// The remainder that is never negative.
fn remainder(ms: i64, interval: i64) -> (r: i64)
    requires
        interval > 0,
    ensures
        r == ms as int % interval as int,
        0 <= r < interval,
{
    let m: i128 = ms as i128;
    let n: i128 = interval as i128;
    proof {
        vstd::arithmetic::div_mod::lemma_mod_bound(ms as int, interval as int);
    }
    if m >= 0 {
        (m % n) as i64
    } else {
        let back: i128 = (-m) % n;
        proof {
            vstd::arithmetic::div_mod::lemma_mod_bound(-m as int, n as int);
            vstd::arithmetic::div_mod::lemma_fundamental_div_mod(-m as int, n as int);
            let q = (-m as int) / n as int;
            if back == 0 {
                assert(m as int == (-q) * n) by (nonlinear_arith)
                    requires
                        -m as int == n * q + back,
                        back == 0,
                ;
                vstd::arithmetic::div_mod::lemma_fundamental_div_mod_converse(
                    m as int,
                    n as int,
                    -q,
                    0,
                );
            } else {
                assert(m as int == (-q - 1) * n + (n - back)) by (nonlinear_arith)
                    requires
                        -m as int == n * q + back,
                ;
                vstd::arithmetic::div_mod::lemma_fundamental_div_mod_converse(
                    m as int,
                    n as int,
                    -q - 1,
                    n - back,
                );
            }
        }
        if back == 0 {
            0
        } else {
            (n - back) as i64
        }
    }
}

fn fold(
    series: &mut VecDeque<Candle>,
    trade: &PublicTrade,
    open_time: Timestamp,
    interval_ms: i64,
    capacity: usize,
) -> (r: Update)
    requires
        capacity > 0,
        open_time.0 == bucket_start(trade.ts.0 as int, interval_ms as int),
        old(series)@.len() > 0 && open_time.0 == old(series)@.last().open_time.0
            ==> decimal::sum_of(old(series)@.last().volume.parts(), trade.qty.parts()) is Some,
    ensures
        r == told(old(series)@, *trade, interval_ms),
        final(series)@ == folded(old(series)@, *trade, interval_ms, capacity as int),
        final(series)@.len() > 0,
        old(series)@.len() > 0 ==> (r matches Update::Formed(bar) ==> grows(
            old(series)@.last(),
            *trade,
            bar,
        )),
{
    let ghost s0 = series@;
    match series.pop_back() {
        None => {
            let first = open(trade, open_time, interval_ms);
            ring::push_capped(series, first.clone(), capacity);
            assert(s0.push(first) =~= seq![first]);
            Update::Formed(first)
        },
        Some(mut last) => {
            assert(series@ =~= s0.drop_last());
            // A trade older than the forming candle would rewrite history that consumers have
            // already drawn. Venues replay prints after a reconnect; they are dropped.
            if open_time.0 < last.open_time.0 {
                series.push_back(last);
                assert(series@ =~= s0);
                return Update::Ignored;
            }
            if open_time.0 == last.open_time.0 {
                last.high = last.high.max(trade.price);
                last.low = last.low.min(trade.price);
                last.close = trade.price;
                last.volume = last.volume.checked_add(trade.qty).unwrap();
                proof {
                    decimal::lemma_of_parts(last.volume);
                }
                let told = last.clone();
                series.push_back(last);
                return Update::Formed(told);
            }
            last.closed = true;
            let closed = last.clone();
            series.push_back(last);
            let opened = open(trade, open_time, interval_ms);
            ring::push_capped(series, opened.clone(), capacity);
            Update::Closed { closed, opened }
        },
    }
}

fn open(trade: &PublicTrade, open_time: Timestamp, interval_ms: i64) -> (r: Candle)
    ensures
        r == opened(*trade, open_time.0 as int, interval_ms),
{
    Candle {
        symbol: trade.symbol.clone(),
        open_time,
        interval_ms,
        open: trade.price,
        high: trade.price,
        low: trade.price,
        close: trade.price,
        volume: trade.qty,
        closed: false,
    }
}

} // verus!

//! What a chart shows: which candles, in which slots, and over which range of prices.
//!
//! Where on the screen a price ends up is for whoever draws it.

use crate::decimal;
use crate::decimal::Decimal;
use crate::domain::market::Candle;
use vstd::prelude::*;

verus! {

/// One bar.
#[derive(Clone, Copy, Debug, PartialEq, Eq)]
pub struct Bar {
    pub open_time: i64,
    /// Which slot it stands in, counted from the left.
    pub slot: usize,
    pub open: Decimal,
    pub high: Decimal,
    pub low: Decimal,
    pub close: Decimal,
    /// Close at or above open: a bar without a body counts as rising.
    pub rising: bool,
}

#[derive(Debug, PartialEq, Eq)]
pub struct ChartView {
    pub bars: Vec<Bar>,
    /// How many bars there is room for.
    pub slots: usize,
    /// Top and bottom of the drawn range, after padding.
    pub high: Decimal,
    pub low: Decimal,
    /// Latest close, for the price line.
    pub last: Option<Decimal>,
}

/// The last `visible` candles, at least one of them where there is one.
pub open spec fn recent(candles: Seq<Candle>, visible: int) -> Seq<Candle> {
    let n = if visible < 1 {
        1
    } else {
        visible
    };
    if candles.len() > n {
        candles.skip(candles.len() - n)
    } else {
        candles
    }
}

/// The highest price of candles, the first of those that are the same number.
pub open spec fn highest(candles: Seq<Candle>) -> Decimal
    decreases candles.len(),
{
    if candles.len() <= 1 {
        candles[0].high
    } else {
        decimal::greater_of(highest(candles.drop_last()), candles.last().high)
    }
}

pub open spec fn lowest(candles: Seq<Candle>) -> Decimal
    decreases candles.len(),
{
    if candles.len() <= 1 {
        candles[0].low
    } else {
        decimal::lesser_of(lowest(candles.drop_last()), candles.last().low)
    }
}

/// The extremes reach over every candle, and are prices of some.
pub proof fn extremes_reach_over_every_candle(candles: Seq<Candle>, i: int)
    requires
        0 <= i < candles.len(),
    ensures
        candles[i].high@ <= highest(candles)@,
        lowest(candles)@ <= candles[i].low@,
        exists|j: int| 0 <= j < candles.len() && #[trigger] candles[j].high == highest(candles),
        exists|j: int| 0 <= j < candles.len() && #[trigger] candles[j].low == lowest(candles),
    decreases candles.len(),
{
    if candles.len() == 1 {
        assert(candles[0].high == highest(candles));
        assert(candles[0].low == lowest(candles));
    } else {
        let rest = candles.drop_last();
        let k = if i < rest.len() {
            i
        } else {
            0
        };
        extremes_reach_over_every_candle(rest, k);
        let h = choose|j: int| 0 <= j < rest.len() && #[trigger] rest[j].high == highest(rest);
        let l = choose|j: int| 0 <= j < rest.len() && #[trigger] rest[j].low == lowest(rest);
        assert(candles[h].high == highest(rest));
        assert(candles[l].low == lowest(rest));
        assert(candles[candles.len() - 1].high == candles.last().high);
        assert(candles[candles.len() - 1].low == candles.last().low);
    }
}

pub fn extremes(candles: &[Candle]) -> (r: (Decimal, Decimal))
    requires
        candles@.len() > 0,
    ensures
        r.0 == highest(candles@),
        r.1 == lowest(candles@),
{
    let mut high = candles[0].high;
    let mut low = candles[0].low;
    let mut i: usize = 1;
    assert(candles@.take(1)[0] == candles@[0]);
    while i < candles.len()
        invariant
            1 <= i <= candles@.len(),
            high == highest(candles@.take(i as int)),
            low == lowest(candles@.take(i as int)),
        decreases candles@.len() - i,
    {
        assert(candles@.take(i + 1).drop_last() =~= candles@.take(i as int));
        high = high.max(candles[i].high);
        low = low.min(candles[i].low);
        i += 1;
    }
    assert(candles@.take(i as int) =~= candles@);
    (high, low)
}

/// What is added above and below a range: eight hundredths of its height, and where it has none a
/// thousandth of the price, or one where the price is zero.
pub open spec fn margin(high: (int, int), low: (int, int)) -> Option<(int, int)> {
    match decimal::difference_of(high, low) {
        None => None,
        Some(range) => if range.0 != 0 {
            decimal::product_of(range, (8, 2))
        } else if high.0 == 0 {
            Some((1, 0))
        } else {
            decimal::product_of((decimal::abs(high.0), high.1), (1, 3))
        },
    }
}

/// A range with its margin.
pub open spec fn padded(high: (int, int), low: (int, int)) -> Option<((int, int), (int, int))> {
    match margin(high, low) {
        None => None,
        Some(m) => match (decimal::sum_of(high, m), decimal::difference_of(low, m)) {
            (Some(top), Some(bottom)) => Some((top, bottom)),
            _ => None,
        },
    }
}

/// The margin with every digit kept.
pub open spec fn exact_margin(high: (int, int), low: (int, int)) -> (int, int) {
    let range = decimal::exact_sum(high, decimal::negated(low));
    if range.0 != 0 {
        decimal::exact_product(range, (8, 2))
    } else if high.0 == 0 {
        (1, 0)
    } else {
        decimal::exact_product((decimal::abs(high.0), high.1), (1, 3))
    }
}

/// Whether every digit can be kept on the way.
pub open spec fn pads_exactly(high: (int, int), low: (int, int)) -> bool {
    let range = decimal::exact_sum(high, decimal::negated(low));
    let m = exact_margin(high, low);
    &&& decimal::sum_is_exact(high, decimal::negated(low))
    &&& if range.0 != 0 {
        decimal::product_is_exact(range, (8, 2))
    } else {
        decimal::product_is_exact((decimal::abs(high.0), high.1), (1, 3))
    }
    &&& decimal::sum_is_exact(high, m)
    &&& decimal::sum_is_exact(low, decimal::negated(m))
}

/// Whether a price is drawn to the last digit: it has no more than seventeen digits before the point
/// and no more than eight behind it.
pub open spec fn drawable(price: (int, int)) -> bool {
    &&& 0 <= price.1 <= 8
    &&& decimal::abs(price.0) < decimal::pow10(17 + price.1)
}

/// Prices that are drawn to the last digit are padded to the last digit.
pub proof fn drawable_prices_pad_exactly(high: (int, int), low: (int, int))
    requires
        drawable(high),
        drawable(low),
    ensures
        pads_exactly(high, low),
        ({
            let m = exact_margin(high, low);
            let (top, bottom) = (decimal::units(high.0, high.1), decimal::units(low.0, low.1));
            &&& top != bottom ==> 100 * decimal::units(m.0, m.1) == 8 * (top - bottom)
            &&& top == bottom && top != 0 ==> 1_000 * decimal::units(m.0, m.1) == decimal::abs(top)
            &&& top == bottom && top == 0 ==> decimal::units(m.0, m.1) == decimal::one()
        }),
{
    let u = decimal::one();
    lemma_drawable(high);
    lemma_drawable(low);
    let back = decimal::negated(low);
    let (low_m, low_p) = (low.0, decimal::pow10(28 - low.1));
    assert((-low_m) * low_p == -(low_m * low_p)) by (nonlinear_arith);
    decimal::lemma_sum_keeps_digits(high, back, 200_000_000_000_000_000);
    decimal::lemma_pow10_positive(28);
    let range = decimal::exact_sum(high, back);
    let m = exact_margin(high, low);
    if range.0 != 0 {
        decimal::lemma_pow10_grows(range.1, 8);
        assert(decimal::pow10(8) == 100_000_000) by {
            reveal_with_fuel(decimal::pow10, 9);
        }
        let d = decimal::pow10(range.1);
        assert(200_000_000_000_000_000 * d <= 200_000_000_000_000_000 * 100_000_000) by (nonlinear_arith)
            requires
                d <= 100_000_000,
        ;
        lemma_finer(range.0 * 8, range.1, 2);
        assert(decimal::units(range.0 * 8, range.1) == 8 * decimal::units(range.0, range.1)) by {
            let (x, p) = (range.0, decimal::pow10(28 - range.1));
            assert((x * 8) * p == 8 * (x * p)) by (nonlinear_arith);
        }
        assert(decimal::pow10(2) == 100) by {
            reveal_with_fuel(decimal::pow10, 3);
        }
    } else if high.0 != 0 {
        decimal::lemma_pow10_grows(17 + high.1, 25);
        assert(decimal::pow10(25) == 10_000_000_000_000_000_000_000_000) by {
            reveal_with_fuel(decimal::pow10, 26);
        }
        lemma_finer(decimal::abs(high.0), high.1, 3);
        assert(decimal::units(decimal::abs(high.0), high.1) == decimal::abs(
            decimal::units(high.0, high.1),
        )) by {
            let (x, p) = (high.0, decimal::pow10(28 - high.1));
            assert((-x) * p == -(x * p)) by (nonlinear_arith);
            decimal::lemma_units_sign(high.0, high.1);
        }
        assert(decimal::pow10(3) == 1_000) by {
            reveal_with_fuel(decimal::pow10, 4);
        }
    } else {
        assert(1 * u == u) by (nonlinear_arith);
        assert(decimal::units(1, 0) == u);
    }
    if range.0 != 0 {
        assert(m == (range.0 * 8, range.1 + 2));
        assert(100 * decimal::units(m.0, m.1) == 8 * decimal::units(range.0, range.1));
    } else if high.0 != 0 {
        assert(m == (decimal::abs(high.0) * 1, high.1 + 3));
        assert(1_000 * decimal::units(m.0, m.1) == decimal::abs(decimal::units(high.0, high.1)));
    }
    assert(decimal::abs(decimal::units(m.0, m.1)) <= 100_000_000_000_000_000 * u);
    decimal::lemma_sum_keeps_digits(high, m, 200_000_000_000_000_000);
    let (x, p) = (m.0, decimal::pow10(28 - m.1));
    assert((-x) * p == -(x * p)) by (nonlinear_arith);
    decimal::lemma_sum_keeps_digits(low, decimal::negated(m), 200_000_000_000_000_000);
    decimal::lemma_exact_sum(high, back);
    decimal::lemma_units_sign(range.0, range.1);
    decimal::lemma_units_sign(high.0, high.1);
    assert(decimal::sum_is_exact(high, back));
    assert(range.0 != 0 ==> decimal::product_is_exact(range, (8, 2)));
    assert(range.0 == 0 ==> decimal::product_is_exact((decimal::abs(high.0), high.1), (1, 3)));
}

proof fn lemma_drawable(price: (int, int))
    requires
        drawable(price),
    ensures
        decimal::abs(decimal::units(price.0, price.1)) <= 100_000_000_000_000_000
            * decimal::one(),
{
    let p = decimal::pow10(28 - price.1);
    let (m, x) = (price.0, decimal::abs(price.0));
    let top = decimal::pow10(17 + price.1);
    decimal::lemma_pow10_positive(28 - price.1);
    decimal::lemma_pow10_adds(17 + price.1, 28 - price.1);
    decimal::lemma_pow10_adds(17, 28);
    decimal::lemma_units_sign(price.0, price.1);
    assert(decimal::pow10(17) == 100_000_000_000_000_000) by {
        reveal_with_fuel(decimal::pow10, 18);
    }
    assert((-m) * p == -(m * p)) by (nonlinear_arith);
    assert(x * p <= top * p) by (nonlinear_arith)
        requires
            x < top,
            p >= 1,
    ;
}

/// The same mantissa at a larger scale is a smaller number.
proof fn lemma_finer(m: int, s: int, by: int)
    requires
        0 <= s,
        0 <= by,
        s + by <= 28,
    ensures
        decimal::pow10(by) * decimal::units(m, s + by) == decimal::units(m, s),
{
    let p = decimal::pow10(28 - s - by);
    let e = decimal::pow10(by);
    decimal::lemma_pow10_adds(by, 28 - s - by);
    assert(e * (m * p) == m * (e * p)) by (nonlinear_arith);
}

/// Widen a range for breathing room, and rescue one with no height at all. Nothing where a number
/// leaves the range of decimals. Where every digit can be kept, the widened range reaches beyond
/// the range on both sides.
pub fn pad(high: Decimal, low: Decimal) -> (r: Option<(Decimal, Decimal)>)
    ensures
        match r {
            Some((top, bottom)) => padded(high.parts(), low.parts()) == Some(
                (top.parts(), bottom.parts()),
            ),
            None => padded(high.parts(), low.parts()) is None,
        },
        pads_exactly(high.parts(), low.parts()) ==> {
            let m = exact_margin(high.parts(), low.parts());
            &&& r is Some
            &&& (r->0).0.parts() == decimal::exact_sum(high.parts(), m)
            &&& (r->0).1.parts() == decimal::exact_sum(low.parts(), decimal::negated(m))
            &&& (r->0).0@ == high@ + decimal::units(m.0, m.1)
            &&& (r->0).1@ == low@ - decimal::units(m.0, m.1)
        },
        pads_exactly(high.parts(), low.parts()) && low@ <= high@ ==> {
            &&& (r->0).0@ > high@
            &&& (r->0).1@ < low@
        },
{
    proof {
        decimal::lemma_units_sign(8, 2);
        decimal::lemma_units_sign(1, 3);
        decimal::lemma_units_sign(1, 0);
    }
    let range = high.checked_sub(low)?;
    proof {
        decimal::lemma_units_sign(range.parts().0, range.parts().1);
        decimal::lemma_units_sign(8 * range.parts().0, range.parts().1 + 2);
        decimal::lemma_units_sign(decimal::abs(high.parts().0), high.parts().1 + 3);
    }
    let m = if !range.is_zero() {
        range.checked_mul(Decimal::new(8, 2))?
    } else if high.is_zero() {
        Decimal::one()
    } else {
        high.abs().checked_mul(Decimal::new(1, 3))?
    };
    let top = high.checked_add(m)?;
    let bottom = low.checked_sub(m)?;
    Some((top, bottom))
}

/// A bar for a candle in a slot.
pub open spec fn bar_of(candle: Candle, slot: int) -> Bar {
    Bar {
        open_time: candle.open_time.0,
        slot: slot as usize,
        open: candle.open,
        high: candle.high,
        low: candle.low,
        close: candle.close,
        rising: candle.close@ >= candle.open@,
    }
}

/// How many slots there are: as many as were asked for, so that a chart that is still filling up
/// keeps the width of its bars, and the newest stand at the right.
pub open spec fn slots_for(visible: int, shown: int) -> int {
    if visible > shown {
        visible
    } else {
        shown
    }
}

pub open spec fn bars_of(candles: Seq<Candle>, first: int) -> Seq<Bar> {
    Seq::new(candles.len(), |i: int| bar_of(candles[i], first + i))
}

/// Whether a chart shows the most recent candles.
pub open spec fn charts(candles: Seq<Candle>, visible: int, view: ChartView) -> bool {
    let shown = recent(candles, visible);
    let slots = slots_for(visible, shown.len() as int);
    if shown.len() == 0 {
        &&& view.bars@.len() == 0
        &&& view.slots == 0
        &&& view.high.parts() == (0int, 0int)
        &&& view.low.parts() == (0int, 0int)
        &&& view.last is None
    } else {
        &&& view.bars@ == bars_of(shown, slots - shown.len())
        &&& view.slots == slots
        &&& padded(highest(shown).parts(), lowest(shown).parts()) == Some(
            (view.high.parts(), view.low.parts()),
        )
        &&& view.last == Some(shown.last().close)
    }
}

/// Whether the prices of candles are drawn to the last digit, and none has its low above its high.
pub open spec fn drawable_candles(candles: Seq<Candle>) -> bool {
    forall|i: int|
        0 <= i < candles.len() ==> {
            &&& drawable((#[trigger] candles[i]).high.parts())
            &&& drawable(candles[i].low.parts())
            &&& candles[i].low@ <= candles[i].high@
        }
}

proof fn lemma_extremes_drawable(candles: Seq<Candle>)
    requires
        candles.len() > 0,
        drawable_candles(candles),
    ensures
        pads_exactly(highest(candles).parts(), lowest(candles).parts()),
        lowest(candles)@ <= highest(candles)@,
{
    extremes_reach_over_every_candle(candles, 0);
    let h = choose|j: int| 0 <= j < candles.len() && #[trigger] candles[j].high == highest(candles);
    let l = choose|j: int| 0 <= j < candles.len() && #[trigger] candles[j].low == lowest(candles);
    assert(candles[0].low@ <= candles[0].high@);
    drawable_prices_pad_exactly(candles[h].high.parts(), candles[l].low.parts());
}

/// Lay out the most recent `visible` candles. Nothing where a number leaves the range of decimals.
pub fn chart_view(candles: &[Candle], visible: usize) -> (r: Option<ChartView>)
    ensures
        match r {
            Some(view) => charts(candles@, visible as int, view),
            None => {
                let shown = recent(candles@, visible as int);
                shown.len() > 0 && padded(highest(shown).parts(), lowest(shown).parts()) is None
            },
        },
        // The drawn range reaches beyond every price that is shown.
        drawable_candles(recent(candles@, visible as int)) ==> r is Some && forall|i: int|
            0 <= i < recent(candles@, visible as int).len() ==> {
                let candle = #[trigger] recent(candles@, visible as int)[i];
                &&& r->0.high@ > candle.high@
                &&& r->0.low@ < candle.low@
            },
{
    if candles.len() == 0 {
        return Some(
            ChartView {
                bars: Vec::new(),
                slots: 0,
                high: Decimal::zero(),
                low: Decimal::zero(),
                last: None,
            },
        );
    }
    let wanted: usize = if visible < 1 {
        1
    } else {
        visible
    };
    let start: usize = if candles.len() > wanted {
        candles.len() - wanted
    } else {
        0
    };
    let shown = vstd::slice::slice_subrange(candles, start, candles.len());
    assert(shown@ =~= recent(candles@, visible as int));
    let (raw_high, raw_low) = extremes(shown);
    proof {
        if drawable_candles(shown@) {
            lemma_extremes_drawable(shown@);
        }
    }
    let (high, low) = pad(raw_high, raw_low)?;
    let slots: usize = if visible > shown.len() {
        visible
    } else {
        shown.len()
    };
    let first: usize = slots - shown.len();
    let mut bars: Vec<Bar> = Vec::new();
    let mut i: usize = 0;
    while i < shown.len()
        invariant
            i <= shown@.len(),
            first + shown@.len() == slots,
            bars@.len() == i,
            forall|j: int|
                0 <= j < i ==> #[trigger] bars@[j] == bar_of(shown@[j], first + j),
        decreases shown@.len() - i,
    {
        let candle = &shown[i];
        bars.push(
            Bar {
                open_time: candle.open_time.0,
                slot: first + i,
                open: candle.open,
                high: candle.high,
                low: candle.low,
                close: candle.close,
                rising: !candle.close.less(candle.open),
            },
        );
        i += 1;
    }
    let view = ChartView { bars, slots, high, low, last: Some(shown[shown.len() - 1].close) };
    proof {
        assert(view.bars@ =~= bars_of(shown@, first as int));
        assert forall|i: int| 0 <= i < shown@.len() implies (#[trigger] shown@[i]).high@
            <= raw_high@ && raw_low@ <= shown@[i].low@ by {
            extremes_reach_over_every_candle(shown@, i);
        }
    }
    Some(view)
}

/// Bars are drawn left to right by time, each in a slot of its own, the newest in the last one.
pub proof fn the_newest_bar_is_rightmost(candles: Seq<Candle>, visible: int, view: ChartView)
    requires
        charts(candles, visible, view),
        candles.len() > 0,
    ensures
        view.bars@.len() == recent(candles, visible).len(),
        view.bars@.last().open_time == candles.last().open_time.0,
        view.bars@.last().slot == view.slots - 1,
        forall|i: int, j: int|
            0 <= i < j < view.bars@.len() ==> (#[trigger] view.bars@[i]).slot < (
            #[trigger] view.bars@[j]).slot < view.slots,
{
}

/// What is drawn are the newest candles, at least one and as many as were asked for, in order; and
/// each bar has the prices of its candle, and rises unless it closed below where it opened.
pub proof fn every_bar_shows_its_candle(
    candles: Seq<Candle>,
    visible: int,
    view: ChartView,
    i: int,
)
    requires
        charts(candles, visible, view),
        0 <= i < view.bars@.len(),
    ensures
        ({
            let bar = view.bars@[i];
            let candle = candles[candles.len() - view.bars@.len() + i];
            &&& bar.open_time == candle.open_time.0
            &&& bar.open == candle.open
            &&& bar.high == candle.high
            &&& bar.low == candle.low
            &&& bar.close == candle.close
            &&& bar.rising <==> candle.close@ >= candle.open@
            &&& view.last == Some(candles.last().close)
            &&& view.bars@.len() == candles.len() || view.bars@.len() == visible || (visible < 1
                && view.bars@.len() == 1)
            &&& visible >= 1 ==> view.bars@.len() <= visible
        }),
{
}

/// A chart that is not full keeps the width of its bars: the number of slots does not depend on
/// how many candles there are yet.
pub proof fn bars_keep_their_width(candles: Seq<Candle>, visible: int)
    requires
        visible >= 1,
    ensures
        slots_for(visible, recent(candles, visible).len() as int) == visible,
{
}

} // verus!

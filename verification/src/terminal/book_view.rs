//! Turning an order book into rows a person can read.

use crate::decimal;
use crate::decimal::Decimal;
use crate::domain::market::{BookLevel, OrderBook, OrderBookView};
use vstd::prelude::*;

verus! {

/// One price level as displayed.
#[derive(Clone, Copy, Debug, PartialEq, Eq)]
pub struct Level {
    pub price: Decimal,
    pub qty: Decimal,
    /// Size at this level and everything between it and the touch.
    pub cumulative: Decimal,
    /// Signed distance from mid in percent: negative below, positive above.
    pub from_mid_pct: Decimal,
    /// Cumulative size as a fraction of the deepest level shown, for the bar: from zero to one.
    pub fill: Decimal,
}

/// What a [`Level`] says.
pub struct LevelView {
    pub price: Decimal,
    pub qty: Decimal,
    pub cumulative: (int, int),
    pub from_mid_pct: (int, int),
    pub fill: (int, int),
}

impl View for Level {
    type V = LevelView;

    open spec fn view(&self) -> LevelView {
        LevelView {
            price: self.price,
            qty: self.qty,
            cumulative: self.cumulative.parts(),
            from_mid_pct: self.from_mid_pct.parts(),
            fill: self.fill.parts(),
        }
    }
}

/// A book prepared for display, both sides already in top-to-bottom screen order.
#[derive(Debug, PartialEq, Eq)]
pub struct DepthView {
    /// Highest ask first, best ask last, so that the touch sits next to the spread row.
    pub asks: Vec<Level>,
    /// Best bid first, descending.
    pub bids: Vec<Level>,
    pub mid: Option<Decimal>,
    pub spread: Option<Decimal>,
    pub spread_pct: Option<Decimal>,
}

/// What a [`DepthView`] says.
#[verifier::ext_equal]
pub struct DepthViewView {
    pub asks: Seq<LevelView>,
    pub bids: Seq<LevelView>,
    pub mid: Option<(int, int)>,
    pub spread: Option<(int, int)>,
    pub spread_pct: Option<(int, int)>,
}

pub open spec fn maybe_parts(d: Option<Decimal>) -> Option<(int, int)> {
    match d {
        Some(d) => Some(d.parts()),
        None => None,
    }
}

impl View for DepthView {
    type V = DepthViewView;

    open spec fn view(&self) -> DepthViewView {
        DepthViewView {
            asks: self.asks@.map_values(|l: Level| l@),
            bids: self.bids@.map_values(|l: Level| l@),
            mid: maybe_parts(self.mid),
            spread: maybe_parts(self.spread),
            spread_pct: maybe_parts(self.spread_pct),
        }
    }
}

/// A number within the range of decimals, or nothing.
pub open spec fn then_times(r: Option<(int, int)>, factor: (int, int)) -> Option<(int, int)> {
    match r {
        Some(p) => decimal::product_of(p, factor),
        None => None,
    }
}

pub open spec fn then_over(r: Option<(int, int)>, divisor: (int, int)) -> Option<(int, int)> {
    match r {
        Some(p) => decimal::quotient_of(p, divisor),
        None => None,
    }
}

/// The mid of a book: nothing inside where it takes a side that is not there, nothing at all where
/// it leaves the range of decimals.
pub open spec fn mid_of(book: OrderBookView) -> Option<Option<(int, int)>> {
    if book.bids.len() == 0 || book.asks.len() == 0 {
        Some(None)
    } else {
        match then_over(
            decimal::sum_of(book.bids[0].price.parts(), book.asks[0].price.parts()),
            (2, 0),
        ) {
            Some(p) => Some(Some(p)),
            None => None,
        }
    }
}

/// The spread of a book, told as its mid is.
pub open spec fn spread_of(book: OrderBookView) -> Option<Option<(int, int)>> {
    if book.bids.len() == 0 || book.asks.len() == 0 {
        Some(None)
    } else {
        match decimal::difference_of(book.asks[0].price.parts(), book.bids[0].price.parts()) {
            Some(p) => Some(Some(p)),
            None => None,
        }
    }
}

/// Half way between the best bid and the best ask.
pub fn try_mid(book: &OrderBook) -> (r: Option<Option<Decimal>>)
    ensures
        match r {
            Some(mid) => mid_of(book@) == Some(maybe_parts(mid)),
            None => mid_of(book@) is None,
        },
        book@.bids.len() > 0 && book@.asks.len() > 0 && decimal::in_range(
            book@.bids[0].price@ + book@.asks[0].price@,
        ) ==> r is Some,
        book@.bids.len() == 0 || book@.asks.len() == 0 ==> r == Some(None::<Decimal>),
        forall|v: int| #[trigger]
            decimal::representable(v) && book@.bids.len() > 0 && book@.asks.len() > 0
                && decimal::sum_is_exact(book@.bids[0].price.parts(), book@.asks[0].price.parts())
                && v + v == book@.bids[0].price@ + book@.asks[0].price@ ==> (r matches Some(
                Some(mid),
            ) && mid@ == v),
{
    match (book.best_bid(), book.best_ask()) {
        (Some(b), Some(a)) => match b.price.checked_add(a.price) {
            Some(sum) => {
                let two = Decimal::two();
                proof {
                    let u = decimal::one();
                    decimal::lemma_pow10_positive(28);
                    decimal::lemma_representable_in_range(sum@);
                    assert(two@ == 2 * u);
                    assert(decimal::MAX_MANTISSA * decimal::abs(2 * u) == 2
                        * decimal::max_units()) by (nonlinear_arith)
                        requires
                            u == decimal::one(),
                            u >= 1,
                    ;
                }
                proof {
                    assert forall|v: int| #[trigger] decimal::representable(v) && v + v
                        == sum@ implies v * two@ == sum@ * decimal::one() by {
                        let (u, t, w) = (decimal::one(), two@, sum@);
                        assert(v * t == w * u) by (nonlinear_arith)
                            requires
                                t == 2 * u,
                                v + v == w,
                        ;
                    }
                }
                match sum.checked_div(two) {
                    Some(mid) => Some(Some(mid)),
                    None => None,
                }
            },
            None => None,
        },
        _ => Some(None),
    }
}

/// What lies between the best bid and the best ask.
pub fn try_spread(book: &OrderBook) -> (r: Option<Option<Decimal>>)
    ensures
        match r {
            Some(spread) => spread_of(book@) == Some(maybe_parts(spread)),
            None => spread_of(book@) is None,
        },
        book@.bids.len() > 0 && book@.asks.len() > 0 && decimal::in_range(
            book@.asks[0].price@ - book@.bids[0].price@,
        ) ==> r is Some,
        book@.bids.len() == 0 || book@.asks.len() == 0 ==> r == Some(None::<Decimal>),
        book@.bids.len() > 0 && book@.asks.len() > 0 && decimal::sum_is_exact(
            book@.asks[0].price.parts(),
            decimal::negated(book@.bids[0].price.parts()),
        ) ==> (r matches Some(Some(spread)) && spread@ == book@.asks[0].price@
            - book@.bids[0].price@),
{
    match (book.best_bid(), book.best_ask()) {
        (Some(b), Some(a)) => match a.price.checked_sub(b.price) {
            Some(spread) => Some(Some(spread)),
            None => None,
        },
        _ => Some(None),
    }
}

/// The quantities of levels.
pub open spec fn sizes(levels: Seq<BookLevel>) -> Seq<(int, int)> {
    levels.map_values(|l: BookLevel| l.qty.parts())
}

/// The `n` best levels of a side.
pub open spec fn shown(levels: Seq<BookLevel>, n: int) -> Seq<BookLevel> {
    if levels.len() > n {
        levels.take(n)
    } else {
        levels
    }
}

/// The size of the `take` best levels, nothing where it leaves the range of decimals.
pub fn total(levels: &Vec<BookLevel>, take: usize) -> (r: Option<Decimal>)
    ensures
        match r {
            Some(d) => decimal::running(sizes(shown(levels@, take as int))) == Some(d.parts()),
            None => decimal::running(sizes(shown(levels@, take as int))) is None,
        },
        decimal::adds_up(sizes(shown(levels@, take as int))) ==> r is Some && r->0.parts()
            == decimal::exact_total(sizes(shown(levels@, take as int))),
{
    let ghost all = sizes(shown(levels@, take as int));
    let mut sum = Decimal::zero();
    let mut i: usize = 0;
    assert(all.take(0) =~= Seq::<(int, int)>::empty());
    while i < levels.len() && i < take
        invariant
            all == sizes(shown(levels@, take as int)),
            i <= all.len(),
            all.len() == (if levels@.len() > take {
                take as int
            } else {
                levels@.len() as int
            }),
            decimal::running(all.take(i as int)) == Some(sum.parts()),
            decimal::adds_up(all.take(i as int)) ==> sum.parts() == decimal::exact_total(
                all.take(i as int),
            ),
        decreases all.len() - i,
    {
        assert(all.take(i + 1).drop_last() =~= all.take(i as int));
        assert(all[i as int] == levels@[i as int].qty.parts());
        match sum.checked_add(levels[i].qty) {
            Some(s) => {
                sum = s;
            },
            None => {
                proof {
                    lemma_running_stays_none(all, i + 1);
                    assert(!decimal::adds_up(all.take(i + 1)));
                    if decimal::adds_up(all) {
                        lemma_adds_up_prefix(all, i + 1);
                    }
                }
                return None;
            },
        }
        i += 1;
    }
    assert(all.take(i as int) =~= all);
    Some(sum)
}

/// A total that has left the range does not come back.
pub proof fn lemma_running_stays_none(all: Seq<(int, int)>, n: int)
    requires
        0 <= n <= all.len(),
        decimal::running(all.take(n)) is None,
    ensures
        decimal::running(all) is None,
    decreases all.len() - n,
{
    if n < all.len() {
        assert(all.take(n + 1).drop_last() =~= all.take(n));
        lemma_running_stays_none(all, n + 1);
    } else {
        assert(all.take(n) =~= all);
    }
}

pub proof fn lemma_adds_up_prefix(all: Seq<(int, int)>, n: int)
    requires
        0 <= n <= all.len(),
        decimal::adds_up(all),
    ensures
        decimal::adds_up(all.take(n)),
    decreases all.len() - n,
{
    if n < all.len() {
        lemma_adds_up_prefix(all, n + 1);
        assert(all.take(n + 1).drop_last() =~= all.take(n));
    } else {
        assert(all.take(n) =~= all);
    }
}

/// How far a price is from mid, in percent: zero without a mid or with one of zero.
pub open spec fn pct_of(price: (int, int), mid: Option<(int, int)>) -> Option<(int, int)> {
    match mid {
        Some(m) if m.0 != 0 => then_times(then_over(decimal::difference_of(price, m), m), (100, 0)),
        _ => Some((0, 0)),
    }
}

/// A part of a whole as a fraction from zero to one, zero where there is no whole.
pub open spec fn ratio_of(part: (int, int), whole: (int, int)) -> Option<(int, int)> {
    if whole.0 <= 0 {
        Some((0, 0))
    } else {
        match decimal::quotient_of(part, whole) {
            Some(q) => Some(clamped(q)),
            None => None,
        }
    }
}

/// A number brought into the range from zero to one.
pub open spec fn clamped(q: (int, int)) -> (int, int) {
    if q.0 < 0 {
        (0, 0)
    } else if decimal::units(q.0, q.1) > decimal::one() {
        (1, 0)
    } else {
        q
    }
}

/// How far a price is from mid, in percent: never positive below it and never negative above it.
pub fn pct(price: Decimal, mid: Option<Decimal>) -> (r: Option<Decimal>)
    ensures
        match r {
            Some(d) => pct_of(price.parts(), maybe_parts(mid)) == Some(d.parts()),
            None => pct_of(price.parts(), maybe_parts(mid)) is None,
        },
        (r matches Some(d) && mid matches Some(m) && m@ > 0 && decimal::sum_is_exact(
            price.parts(),
            decimal::negated(m.parts()),
        )) ==> {
            &&& price@ <= mid->0@ ==> r->0@ <= 0
            &&& price@ >= mid->0@ ==> r->0@ >= 0
        },
{
    proof {
        decimal::lemma_units_sign(0, 0);
        decimal::lemma_units_sign(100, 0);
    }
    let m = match mid {
        Some(m) => m,
        None => {
            return Some(Decimal::zero());
        },
    };
    if m.is_zero() {
        return Some(Decimal::zero());
    }
    let d = price.checked_sub(m)?;
    let q = d.checked_div(m)?;
    assert(decimal::past_no_whole(0, d@, m@, q@));
    q.checked_mul(Decimal::from_i64(100))
}

/// Cumulative size as a fraction from zero to one.
pub fn ratio(part: Decimal, whole: Decimal) -> (r: Option<Decimal>)
    ensures
        match r {
            Some(d) => ratio_of(part.parts(), whole.parts()) == Some(d.parts()) && 0 <= d@
                <= decimal::one(),
            None => ratio_of(part.parts(), whole.parts()) is None,
        },
        whole@ <= 0 || (0 <= part@ <= whole@) ==> r is Some,
        0 < whole@ <= part@ ==> r is Some ==> r->0@ == decimal::one(),
{
    let zero = Decimal::zero();
    let one = Decimal::one();
    proof {
        decimal::lemma_units_sign(0, 0);
        decimal::lemma_units_sign(whole.parts().0, whole.parts().1);
        decimal::lemma_pow10_positive(28);
        assert(one@ == decimal::one());
    }
    if !zero.less(whole) {
        return Some(zero);
    }
    proof {
        assert(0 <= part@ <= whole@ ==> decimal::quotient_in_range(part@, whole@))
            by (nonlinear_arith)
            requires
                whole@ > 0,
                decimal::quotient_in_range(part@, whole@) == (decimal::abs(part@)
                    <= decimal::MAX_MANTISSA * decimal::abs(whole@)),
                decimal::abs(part@) == part@ || part@ < 0,
                decimal::abs(whole@) == whole@,
        ;
    }
    let q = match part.checked_div(whole) {
        Some(q) => q,
        None => {
            return None;
        },
    };
    proof {
        decimal::lemma_units_sign(q.parts().0, q.parts().1);
        assert(decimal::past_no_whole(1, part@, whole@, q@));
    }
    if q.less(zero) {
        Some(zero)
    } else if one.less(q) {
        Some(one)
    } else {
        Some(q)
    }
}

/// The rows of a side, from the touch outward.
pub open spec fn rows_of(
    levels: Seq<BookLevel>,
    mid: Option<(int, int)>,
    deepest: (int, int),
) -> Option<Seq<LevelView>>
    decreases levels.len(),
{
    if levels.len() == 0 {
        Some(Seq::empty())
    } else {
        let l = levels.last();
        match (
            rows_of(levels.drop_last(), mid, deepest),
            decimal::running(sizes(levels)),
            pct_of(l.price.parts(), mid),
        ) {
            (Some(rest), Some(cumulative), Some(from_mid_pct)) => match ratio_of(
                cumulative,
                deepest,
            ) {
                Some(fill) => Some(
                    rest.push(
                        LevelView { price: l.price, qty: l.qty, cumulative, from_mid_pct, fill },
                    ),
                ),
                None => None,
            },
            _ => None,
        }
    }
}

proof fn lemma_rows_stay_none(
    levels: Seq<BookLevel>,
    mid: Option<(int, int)>,
    deepest: (int, int),
    n: int,
)
    requires
        0 <= n <= levels.len(),
        rows_of(levels.take(n), mid, deepest) is None,
    ensures
        rows_of(levels, mid, deepest) is None,
    decreases levels.len() - n,
{
    if n < levels.len() {
        assert(levels.take(n + 1).drop_last() =~= levels.take(n));
        lemma_rows_stay_none(levels, mid, deepest, n + 1);
    } else {
        assert(levels.take(n) =~= levels);
    }
}

/// The rows of the `take` best levels of a side, from the touch outward. Nothing where a number
/// leaves the range of decimals.
pub fn side(
    levels: &Vec<BookLevel>,
    take: usize,
    mid: Option<Decimal>,
    deepest: Decimal,
) -> (r: Option<Vec<Level>>)
    ensures
        match r {
            Some(rows) => rows_of(shown(levels@, take as int), maybe_parts(mid), deepest.parts())
                == Some(rows@.map_values(|l: Level| l@)),
            None => rows_of(shown(levels@, take as int), maybe_parts(mid), deepest.parts()) is None,
        },
{
    let ghost all = shown(levels@, take as int);
    let ghost m = maybe_parts(mid);
    let mut rows: Vec<Level> = Vec::new();
    let mut cumulative = Decimal::zero();
    let mut i: usize = 0;
    assert(all.take(0) =~= Seq::<BookLevel>::empty());
    assert(sizes(all.take(0)) =~= Seq::<(int, int)>::empty());
    assert(rows@.map_values(|l: Level| l@) =~= Seq::<LevelView>::empty());
    while i < levels.len() && i < take
        invariant
            all == shown(levels@, take as int),
            m == maybe_parts(mid),
            i <= all.len(),
            all.len() == (if levels@.len() > take {
                take as int
            } else {
                levels@.len() as int
            }),
            decimal::running(sizes(all.take(i as int))) == Some(cumulative.parts()),
            rows_of(all.take(i as int), m, deepest.parts()) == Some(
                rows@.map_values(|l: Level| l@),
            ),
        decreases all.len() - i,
    {
        let level = levels[i];
        let ghost so_far = all.take(i + 1);
        assert(so_far.drop_last() =~= all.take(i as int));
        assert(so_far.last() == level);
        assert(sizes(so_far).drop_last() =~= sizes(all.take(i as int)));
        assert(sizes(so_far).last() == level.qty.parts());
        let next = cumulative.checked_add(level.qty);
        let from_mid = pct(level.price, mid);
        if let (Some(cum), Some(from_mid_pct)) = (next, from_mid) {
            if let Some(fill) = ratio(cum, deepest) {
                cumulative = cum;
                let row = Level {
                    price: level.price,
                    qty: level.qty,
                    cumulative,
                    from_mid_pct,
                    fill,
                };
                let ghost before = rows@;
                rows.push(row);
                assert(rows@.map_values(|l: Level| l@) =~= before.map_values(|l: Level| l@).push(
                    row@,
                ));
                i += 1;
                continue ;
            }
        }
        proof {
            lemma_rows_stay_none(all, m, deepest.parts(), i + 1);
        }
        return None;
    }
    assert(all.take(i as int) =~= all);
    Some(rows)
}

/// The greater of two sizes, the second where they are the same number.
pub open spec fn deeper(a: (int, int), b: (int, int)) -> (int, int) {
    if decimal::units(a.0, a.1) > decimal::units(b.0, b.1) {
        a
    } else {
        b
    }
}

pub open spec fn spread_pct_of(spread: Option<(int, int)>, mid: Option<(int, int)>) -> Option<
    Option<(int, int)>,
> {
    match (spread, mid) {
        (Some(s), Some(m)) if m.0 != 0 => match then_times(decimal::quotient_of(s, m), (100, 0)) {
            Some(p) => Some(Some(p)),
            None => None,
        },
        _ => Some(None),
    }
}

/// A book as it is drawn, the `n` best levels of each side. Both sides are scaled against one
/// maximum, so that an imbalance is visible as bar length.
pub open spec fn drawn(book: OrderBookView, n: int) -> Option<DepthViewView> {
    let bids = shown(book.bids, n);
    let asks = shown(book.asks, n);
    match (
        mid_of(book),
        spread_of(book),
        decimal::running(sizes(bids)),
        decimal::running(sizes(asks)),
    ) {
        (Some(mid), Some(spread), Some(bid_total), Some(ask_total)) => {
            let deepest = deeper(bid_total, ask_total);
            match (
                rows_of(asks, mid, deepest),
                rows_of(bids, mid, deepest),
                spread_pct_of(spread, mid),
            ) {
                (Some(a), Some(b), Some(spread_pct)) => Some(
                    DepthViewView { asks: a.reverse(), bids: b, mid, spread, spread_pct },
                ),
                _ => None,
            }
        },
        _ => None,
    }
}

/// Build the view for the `levels` best prices on each side. Nothing where a number leaves the
/// range of decimals.
pub fn depth_view(book: &OrderBook, levels: usize) -> (r: Option<DepthView>)
    ensures
        match r {
            Some(view) => drawn(book@, levels as int) == Some(view@),
            None => drawn(book@, levels as int) is None,
        },
{
    let mid = try_mid(book)?;
    let spread = try_spread(book)?;
    let bid_total = total(&book.bids, levels)?;
    let ask_total = total(&book.asks, levels)?;
    let deepest = if ask_total.less(bid_total) {
        bid_total
    } else {
        ask_total
    };
    // Accumulated outward from the touch, but drawn with the far side at the top.
    let near_first = side(&book.asks, levels, mid, deepest)?;
    let bids = side(&book.bids, levels, mid, deepest)?;
    let mut asks: Vec<Level> = Vec::new();
    let mut i: usize = near_first.len();
    let ghost outward = near_first@.map_values(|l: Level| l@);
    while i > 0
        invariant
            i <= near_first@.len(),
            asks@.len() == near_first@.len() - i,
            forall|j: int|
                0 <= j < asks@.len() ==> #[trigger] asks@[j] == near_first@[near_first@.len() - 1
                    - j],
        decreases i,
    {
        i -= 1;
        asks.push(near_first[i]);
    }
    assert(asks@.map_values(|l: Level| l@) =~= outward.reverse());
    let spread_pct = match (spread, mid) {
        (Some(s), Some(m)) => if m.is_zero() {
            None
        } else {
            let q = s.checked_div(m)?;
            Some(q.checked_mul(Decimal::from_i64(100))?)
        },
        _ => None,
    };
    let view = DepthView { asks, bids, mid, spread, spread_pct };
    assert(view@ =~= drawn(book@, levels as int)->0);
    Some(view)
}

proof fn lemma_rows(levels: Seq<BookLevel>, mid: Option<(int, int)>, deepest: (int, int))
    requires
        rows_of(levels, mid, deepest) is Some,
    ensures
        rows_of(levels, mid, deepest)->0.len() == levels.len(),
        forall|i: int|
            0 <= i < levels.len() ==> {
                let row = #[trigger] rows_of(levels, mid, deepest)->0[i];
                &&& row.price == levels[i].price
                &&& row.qty == levels[i].qty
                &&& decimal::running(sizes(levels.take(i + 1))) == Some(row.cumulative)
                &&& pct_of(levels[i].price.parts(), mid) == Some(row.from_mid_pct)
                &&& ratio_of(row.cumulative, deepest) == Some(row.fill)
            },
    decreases levels.len(),
{
    if levels.len() > 0 {
        let rest = levels.drop_last();
        lemma_rows(rest, mid, deepest);
        let rows = rows_of(levels, mid, deepest)->0;
        assert forall|i: int| 0 <= i < levels.len() implies {
            let row = #[trigger] rows[i];
            &&& row.price == levels[i].price
            &&& row.qty == levels[i].qty
            &&& decimal::running(sizes(levels.take(i + 1))) == Some(row.cumulative)
            &&& pct_of(levels[i].price.parts(), mid) == Some(row.from_mid_pct)
            &&& ratio_of(row.cumulative, deepest) == Some(row.fill)
        } by {
            if i < rest.len() {
                assert(rest.take(i + 1) =~= levels.take(i + 1));
                assert(rows[i] == rows_of(rest, mid, deepest)->0[i]);
            } else {
                assert(levels.take(i + 1) =~= levels);
            }
        }
    }
}

/// The touch sits next to the spread row: the best ask is the last ask row, and the best bid the
/// first bid row. There are as many rows as were asked for, or as many as there are levels.
pub proof fn the_touch_sits_next_to_the_spread(book: OrderBookView, n: int)
    requires
        n > 0,
        drawn(book, n) is Some,
    ensures
        ({
            let view = drawn(book, n)->0;
            &&& view.bids.len() == shown(book.bids, n).len()
            &&& view.asks.len() == shown(book.asks, n).len()
            &&& book.bids.len() > 0 ==> view.bids[0].price == book.bids[0].price
            &&& book.asks.len() > 0 ==> view.asks.last().price == book.asks[0].price
        }),
{
    let bids = shown(book.bids, n);
    let asks = shown(book.asks, n);
    let mid = mid_of(book)->0;
    let deepest = deeper(decimal::running(sizes(bids))->0, decimal::running(sizes(asks))->0);
    lemma_rows(bids, mid, deepest);
    lemma_rows(asks, mid, deepest);
    if book.bids.len() > 0 {
        assert(rows_of(bids, mid, deepest)->0[0].price == bids[0].price);
    }
    if book.asks.len() > 0 {
        assert(rows_of(asks, mid, deepest)->0[0].price == asks[0].price);
    }
}

/// Size accumulates outward from the touch: what a row shows is the total of its level and all
/// between it and the touch.
pub proof fn size_accumulates_outward(book: OrderBookView, n: int, i: int)
    requires
        n > 0,
        drawn(book, n) is Some,
        0 <= i < shown(book.bids, n).len(),
    ensures
        decimal::running(sizes(shown(book.bids, n).take(i + 1))) == Some(
            drawn(book, n)->0.bids[i].cumulative,
        ),
{
    let bids = shown(book.bids, n);
    let asks = shown(book.asks, n);
    let mid = mid_of(book)->0;
    let deepest = deeper(decimal::running(sizes(bids))->0, decimal::running(sizes(asks))->0);
    lemma_rows(bids, mid, deepest);
    assert(rows_of(bids, mid, deepest)->0[i].price == bids[i].price);
}

/// Whether a row shows a level of a side: its price and its size, the size up to it, how far its
/// price is from mid in percent of mid, and the size up to it as a part of the deepest.
pub open spec fn row_shows(
    row: LevelView,
    levels: Seq<BookLevel>,
    i: int,
    mid: Option<(int, int)>,
    deepest: (int, int),
) -> bool {
    &&& row.price == levels[i].price
    &&& row.qty == levels[i].qty
    &&& decimal::running(levels.take(i + 1).map_values(|l: BookLevel| l.qty.parts())) == Some(
        row.cumulative,
    )
    &&& mid is None || (mid->0).0 == 0 ==> row.from_mid_pct == (0int, 0int)
    &&& mid is Some && (mid->0).0 != 0 ==> {
        let away = decimal::difference_of(levels[i].price.parts(), mid->0);
        let part = decimal::quotient_of(away->0, mid->0);
        decimal::product_of(part->0, (100, 0)) == Some(row.from_mid_pct)
    }
    &&& deepest.0 <= 0 ==> row.fill == (0int, 0int)
    &&& deepest.0 > 0 ==> {
        let part = decimal::quotient_of(row.cumulative, deepest)->0;
        &&& part.0 < 0 ==> row.fill == (0int, 0int)
        &&& part.0 >= 0 && decimal::units(part.0, part.1) > decimal::one() ==> row.fill == (
            1int,
            0int,
        )
        &&& part.0 >= 0 && decimal::units(part.0, part.1) <= decimal::one() ==> row.fill == part
    }
}

/// Every row shows its level. Bids go outward from the touch, asks towards it, and both are
/// measured against the same size: the greater of the two sides.
pub proof fn every_row_shows_its_level(book: OrderBookView, n: int, i: int)
    requires
        n > 0,
        drawn(book, n) is Some,
        i >= 0,
    ensures
        ({
            let view = drawn(book, n)->0;
            let (bids, asks) = (shown(book.bids, n), shown(book.asks, n));
            let (a, b) = (decimal::running(sizes(bids))->0, decimal::running(sizes(asks))->0);
            let deepest = if decimal::units(a.0, a.1) > decimal::units(b.0, b.1) {
                a
            } else {
                b
            };
            &&& i < bids.len() ==> row_shows(view.bids[i], book.bids, i, view.mid, deepest)
            &&& i < asks.len() ==> row_shows(
                view.asks[asks.len() - 1 - i],
                book.asks,
                i,
                view.mid,
                deepest,
            )
        }),
{
    let bids = shown(book.bids, n);
    let asks = shown(book.asks, n);
    let mid = mid_of(book)->0;
    let deepest = deeper(decimal::running(sizes(bids))->0, decimal::running(sizes(asks))->0);
    lemma_rows(bids, mid, deepest);
    lemma_rows(asks, mid, deepest);
    if i < bids.len() {
        assert(bids.take(i + 1) =~= book.bids.take(i + 1));
        assert(rows_of(bids, mid, deepest)->0[i].price == bids[i].price);
    }
    if i < asks.len() {
        assert(asks.take(i + 1) =~= book.asks.take(i + 1));
        assert(rows_of(asks, mid, deepest)->0[i].price == asks[i].price);
    }
}

/// The mid is half of what the two best prices come to, the spread is what the best ask is above the
/// best bid, and the percentage is what the spread is of the mid.
pub proof fn the_middle_is_between_the_best(book: OrderBookView, n: int)
    requires
        n > 0,
        drawn(book, n) is Some,
        book.bids.len() > 0,
        book.asks.len() > 0,
    ensures
        ({
            let view = drawn(book, n)->0;
            let (bid, ask) = (book.bids[0].price.parts(), book.asks[0].price.parts());
            &&& view.mid == decimal::quotient_of(decimal::sum_of(bid, ask)->0, (2, 0))
            &&& view.mid is Some
            &&& view.spread == decimal::difference_of(ask, bid)
            &&& view.spread is Some
            &&& (view.mid->0).0 != 0 ==> view.spread_pct == decimal::product_of(
                decimal::quotient_of(view.spread->0, view.mid->0)->0,
                (100, 0),
            )
            &&& (view.mid->0).0 == 0 ==> view.spread_pct is None
        }),
{
}

/// What is shown of a side are its best levels, as many as were asked for.
pub proof fn the_best_levels_are_shown(levels: Seq<BookLevel>, n: int)
    requires
        n >= 0,
    ensures
        shown(levels, n).len() <= n,
        shown(levels, n).len() == n || shown(levels, n).len() == levels.len(),
        forall|i: int| 0 <= i < shown(levels, n).len() ==> shown(levels, n)[i] == #[trigger] levels[i],
{
}

/// Levels beyond the depth that is asked for do not count, neither as rows nor for the bars.
pub proof fn only_what_is_shown_counts(book: OrderBookView, n: int)
    requires
        n > 0,
    ensures
        drawn(
            OrderBookView { bids: shown(book.bids, n), asks: shown(book.asks, n), ..book },
            n,
        ) == drawn(book, n),
{
    let cut = OrderBookView { bids: shown(book.bids, n), asks: shown(book.asks, n), ..book };
    assert(shown(cut.bids, n) =~= shown(book.bids, n));
    assert(shown(cut.asks, n) =~= shown(book.asks, n));
    assert(cut.bids.len() == 0 <==> book.bids.len() == 0);
    assert(cut.asks.len() == 0 <==> book.asks.len() == 0);
    if book.bids.len() > 0 {
        assert(cut.bids[0] == book.bids[0]);
    }
    if book.asks.len() > 0 {
        assert(cut.asks[0] == book.asks[0]);
    }
}

/// A book with one side, or none, has no mid and no percentage, and nothing is divided by it.
pub proof fn one_side_makes_no_mid(book: OrderBookView, n: int)
    requires
        book.bids.len() == 0 || book.asks.len() == 0,
        drawn(book, n) is Some,
    ensures
        drawn(book, n)->0.mid is None,
        drawn(book, n)->0.spread is None,
        drawn(book, n)->0.spread_pct is None,
{
}

} // verus!

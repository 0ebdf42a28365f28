//! The texts of the panels.
//!
//! Each panel is a function of what the feed last published. Colours and positions are for whoever
//! draws it.

use crate::decimal;
use crate::decimal::Decimal;
use crate::domain::market::{BookLevel, OrderBook, OrderBookView, PublicTrade};
use crate::storage::orders;
use crate::table;
use crate::terminal::book_view;
use crate::terminal::book_view::{depth_view, try_mid, try_spread, DepthView, DepthViewView, Level, LevelView};
use crate::terminal::clock;
use crate::terminal::feed::{FeedState, FeedStateView, StatusView};
use crate::text;
use vstd::prelude::*;

verus! {

/// Price levels shown on each side of the book.
pub const DEPTH_ROWS: usize = 16;

/// Trades shown in the tape.
pub const TAPE_ROWS: usize = 40;

/// Log lines shown at once.
pub const LOG_ROWS: usize = 60;

/// A panel: one line where there is nothing to show, or rows of cells, the heading first.
#[derive(Debug, PartialEq, Eq)]
pub enum Panel {
    Note(String),
    Rows(Vec<Vec<String>>),
}

/// What a [`Panel`] says.
pub enum PanelView {
    Note(Seq<char>),
    Rows(Seq<Seq<Seq<char>>>),
}

/// The texts of rows.
pub open spec fn grid(rows: Seq<Vec<String>>) -> Seq<Seq<Seq<char>>> {
    rows.map_values(|r: Vec<String>| table::texts(r@))
}

impl View for Panel {
    type V = PanelView;

    open spec fn view(&self) -> PanelView {
        match self {
            Panel::Note(t) => PanelView::Note(t@),
            Panel::Rows(rows) => PanelView::Rows(grid(rows@)),
        }
    }
}

fn add_row(rows: &mut Vec<Vec<String>>, row: Vec<String>)
    ensures
        grid(final(rows)@) == grid(old(rows)@).push(table::texts(row@)),
{
    rows.push(row);
    assert(grid(rows@) =~= grid(old(rows)@).push(table::texts(row@)));
}

fn row2(a: String, b: String) -> (r: Vec<String>)
    ensures
        table::texts(r@) == seq![a@, b@],
{
    let r = vec![a, b];
    assert(table::texts(r@) =~= seq![a@, b@]);
    r
}

fn row4(a: String, b: String, c: String, d: String) -> (r: Vec<String>)
    ensures
        table::texts(r@) == seq![a@, b@, c@, d@],
{
    let r = vec![a, b, c, d];
    assert(table::texts(r@) =~= seq![a@, b@, c@, d@]);
    r
}

fn row5(a: String, b: String, c: String, d: String, e: String) -> (r: Vec<String>)
    ensures
        table::texts(r@) == seq![a@, b@, c@, d@, e@],
{
    let r = vec![a, b, c, d, e];
    assert(table::texts(r@) =~= seq![a@, b@, c@, d@, e@]);
    r
}

/// A number as it is shown.
///
/// Venues pad prices to their full precision; the zeros at the end are noise on screen and make
/// columns hard to compare at a glance.
pub open spec fn shown(parts: (int, int)) -> Seq<char> {
    decimal::decimal_text(decimal::trimmed(parts).0, decimal::trimmed(parts).1)
}

pub fn show(value: Decimal) -> (r: String)
    ensures
        r@ == shown(value.parts()),
{
    value.normalize().to_string()
}

/// A price and a size, or a dash where there is no level.
pub open spec fn level_shown(level: Option<BookLevel>) -> Seq<char> {
    match level {
        Some(l) => shown(l.price.parts()) + "  × "@ + shown(l.qty.parts()),
        None => "—"@,
    }
}

pub fn level_text(level: Option<BookLevel>) -> (r: String)
    ensures
        r@ == level_shown(level),
{
    match level {
        Some(l) => {
            let mut r = show(l.price);
            r.append("  × ");
            r.append(show(l.qty).as_str());
            r
        },
        None => "—".to_owned(),
    }
}

/// An instrument as it is listed: the venue goes without saying.
pub open spec fn label_of(key: Seq<char>) -> Seq<char> {
    if key.len() >= 8 && key.take(8) == "binance:"@ {
        key.skip(8)
    } else {
        key
    }
}

pub fn label(key: &str) -> (r: String)
    ensures
        r@ == label_of(key@),
{
    let n: usize = key.unicode_len();
    if n >= 8 {
        let front = key.substring_char(0, 8);
        assert(front@ =~= key@.take(8));
        if text::same(front, "binance:") {
            let rest = key.substring_char(8, n);
            assert(rest@ =~= key@.skip(8));
            return rest.to_owned();
        }
    }
    key.to_owned()
}

/// A percentage with its sign.
pub open spec fn signed_pct(parts: (int, int)) -> Seq<char> {
    if parts.0 < 0 {
        decimal::thousandths_text(parts.0, parts.1)
    } else {
        seq!['+'] + decimal::thousandths_text(parts.0, parts.1)
    }
}

fn signed_pct_text(value: Decimal) -> (r: String)
    requires
        decimal::has_room(value.parts()),
    ensures
        r@ == signed_pct(value.parts()),
{
    let zero = Decimal::zero();
    proof {
        decimal::lemma_units_sign(0, 0);
        decimal::lemma_units_sign(value.parts().0, value.parts().1);
    }
    let mut r = String::new();
    if !value.less(zero) {
        r.push('+');
    }
    r.append(value.to_thousandths().as_str());
    assert(r@ =~= signed_pct(value.parts()));
    r
}

/// What is shown of a number is the number, without zeros at the end of its fraction.
pub proof fn the_number_is_shown(parts: (int, int))
    requires
        0 <= parts.1 <= 28,
    ensures
        exists|short: (int, int)|
            shown(parts) == #[trigger] decimal::decimal_text(short.0, short.1) && decimal::units(
                short.0,
                short.1,
            ) == decimal::units(parts.0, parts.1) && (short.1 == 0 || short.0 % 10 != 0),
{
    decimal::trimming_keeps_the_number(parts);
    let short = decimal::trimmed(parts);
    assert(shown(parts) == decimal::decimal_text(short.0, short.1));
}

/// The venue is left out of a label, and nothing else is.
pub proof fn a_label_leaves_the_venue_out(rest: Seq<char>)
    ensures
        label_of("binance:"@ + rest) == rest,
{
    reveal_strlit("binance:");
    let key = "binance:"@ + rest;
    assert(key.take(8) =~= "binance:"@);
    assert(key.skip(8) =~= rest);
}

/// A percentage has a sign: a minus below zero and a plus otherwise.
pub proof fn a_percentage_has_a_sign(parts: (int, int))
    ensures
        signed_pct(parts).len() > 0,
        parts.0 < 0 ==> signed_pct(parts)[0] == '-',
        parts.0 >= 0 ==> signed_pct(parts)[0] == '+' && signed_pct(parts).skip(1)
            == decimal::thousandths_text(parts.0, parts.1),
{
    if parts.0 >= 0 {
        assert(signed_pct(parts).skip(1) =~= decimal::thousandths_text(parts.0, parts.1));
    } else {
        assert(decimal::thousandths_text(parts.0, parts.1)[0] == '-');
    }
}

// ------------------------------------------------------------------ order book

pub open spec fn depth_heading() -> Seq<Seq<char>> {
    seq!["price"@, "size"@, "total"@, "% mid"@]
}

/// A level as a row: price, size, size up to it, and how far it is from mid.
pub open spec fn depth_cells(level: LevelView) -> Seq<Seq<char>> {
    seq![
        shown(level.price.parts()),
        shown(level.qty.parts()),
        shown(level.cumulative),
        signed_pct(level.from_mid_pct),
    ]
}

pub fn depth_row(level: &Level) -> (r: Vec<String>)
    requires
        decimal::has_room(level@.from_mid_pct),
    ensures
        table::texts(r@) == depth_cells(level@),
{
    row4(
        show(level.price),
        show(level.qty),
        show(level.cumulative),
        signed_pct_text(level.from_mid_pct),
    )
}

/// The line between the two sides.
pub open spec fn spread_line(view: DepthViewView) -> Seq<char> {
    match (view.mid, view.spread, view.spread_pct) {
        (Some(mid), Some(spread), Some(pct)) => shown(mid) + "   spread "@ + shown(spread) + "  ("@
            + decimal::thousandths_text(pct.0, pct.1) + "%)"@,
        _ => "no two-sided market"@,
    }
}

/// Whether the spread, as a percentage, can be printed.
pub open spec fn spread_has_room(view: DepthViewView) -> bool {
    view.spread_pct matches Some(pct) ==> decimal::has_room(pct)
}

pub fn spread_row(view: &DepthView) -> (r: String)
    requires
        spread_has_room(view@),
    ensures
        r@ == spread_line(view@),
{
    match (view.mid, view.spread, view.spread_pct) {
        (Some(mid), Some(spread), Some(pct)) => {
            let mut r = show(mid);
            r.append("   spread ");
            r.append(show(spread).as_str());
            r.append("  (");
            r.append(pct.to_thousandths().as_str());
            r.append("%)");
            r
        },
        _ => "no two-sided market".to_owned(),
    }
}

/// What is said while there is no book.
pub open spec fn waiting_line(status: StatusView) -> Seq<char> {
    if status is Live {
        "subscribed — waiting for the book"@
    } else {
        "not connected to a core"@
    }
}

/// A book as a panel: the asks, far to near, the spread, and the bids, near to far.
pub open spec fn book_panel(view: DepthViewView) -> Seq<Seq<Seq<char>>> {
    seq![depth_heading()] + view.asks.map_values(|l: LevelView| depth_cells(l)) + seq![
        seq![spread_line(view)],
    ] + view.bids.map_values(|l: LevelView| depth_cells(l))
}

/// The panel of a book has the asks above the spread, as they are drawn, and the bids below it: each
/// with its price, its size, the size up to it and how far it is from mid.
pub proof fn the_spread_parts_the_sides(view: DepthViewView, i: int)
    requires
        i >= 0,
    ensures
        ({
            let rows = book_panel(view);
            let n = view.asks.len() as int;
            &&& rows.len() == n + view.bids.len() + 2
            &&& rows[n + 1] == seq![spread_line(view)]
            &&& i < n ==> rows[1 + i].len() == 4 && rows[1 + i][0] == shown(
                view.asks[i].price.parts(),
            ) && rows[1 + i][1] == shown(view.asks[i].qty.parts()) && rows[1 + i][2] == shown(
                view.asks[i].cumulative,
            ) && rows[1 + i][3] == signed_pct(view.asks[i].from_mid_pct)
            &&& i < view.bids.len() ==> rows[n + 2 + i].len() == 4 && rows[n + 2 + i][0] == shown(
                view.bids[i].price.parts(),
            ) && rows[n + 2 + i][1] == shown(view.bids[i].qty.parts()) && rows[n + 2 + i][2]
                == shown(view.bids[i].cumulative) && rows[n + 2 + i][3] == signed_pct(
                view.bids[i].from_mid_pct,
            )
        }),
{
}

/// Whether the percentages of levels can be printed.
pub open spec fn levels_have_room(levels: Seq<LevelView>) -> bool {
    forall|i: int| 0 <= i < levels.len() ==> decimal::has_room((#[trigger] levels[i]).from_mid_pct)
}

/// Whether every percentage of a book can be printed.
pub open spec fn has_room(view: DepthViewView) -> bool {
    spread_has_room(view) && levels_have_room(view.asks) && levels_have_room(view.bids)
}

fn fits(levels: &Vec<Level>) -> (r: bool)
    ensures
        r == levels_have_room(levels@.map_values(|l: Level| l@)),
{
    let ghost all = levels@.map_values(|l: Level| l@);
    let mut i: usize = 0;
    while i < levels.len()
        invariant
            i <= levels@.len(),
            all == levels@.map_values(|l: Level| l@),
            forall|j: int| 0 <= j < i ==> decimal::has_room((#[trigger] all[j]).from_mid_pct),
        decreases levels@.len() - i,
    {
        if !levels[i].from_mid_pct.fits_thousandths() {
            assert(!decimal::has_room(all[i as int].from_mid_pct));
            return false;
        }
        i += 1;
    }
    true
}

/// The order book panel of an instrument. Nothing where a number leaves the range of decimals, or a
/// percentage the room that there is to print it.
pub fn order_book(state: &FeedState, key: &str) -> (r: Option<Panel>)
    requires
        state.wf(),
    ensures
        if state@.books.contains_key(key@) {
            match book_view::drawn(state@.books[key@], DEPTH_ROWS as int) {
                Some(view) => if has_room(view) {
                    r matches Some(p) && p@ == PanelView::Rows(book_panel(view))
                } else {
                    r is None
                },
                None => r is None,
            }
        } else {
            r matches Some(p) && p@ == PanelView::Note(waiting_line(state@.status))
        },
{
    let book = match state.book(key) {
        Some(book) => book,
        None => {
            return Some(
                Panel::Note(
                    if state.status().is_live() {
                        "subscribed — waiting for the book".to_owned()
                    } else {
                        "not connected to a core".to_owned()
                    },
                ),
            );
        },
    };
    let view = depth_view(book, DEPTH_ROWS)?;
    let spread_fits: bool = match view.spread_pct {
        Some(pct) => pct.fits_thousandths(),
        None => true,
    };
    if !spread_fits || !fits(&view.asks) || !fits(&view.bids) {
        return None;
    }
    let mut rows: Vec<Vec<String>> = Vec::new();
    add_row(
        &mut rows,
        row4("price".to_owned(), "size".to_owned(), "total".to_owned(), "% mid".to_owned()),
    );
    let ghost head = seq![depth_heading()];
    assert(grid(rows@) =~= head);
    add_levels(&mut rows, &view.asks);
    let line = vec![spread_row(&view)];
    assert(table::texts(line@) =~= seq![spread_line(view@)]);
    add_row(&mut rows, line);
    add_levels(&mut rows, &view.bids);
    assert(grid(rows@) =~= book_panel(view@));
    Some(Panel::Rows(rows))
}

fn add_levels(rows: &mut Vec<Vec<String>>, levels: &Vec<Level>)
    requires
        levels_have_room(levels@.map_values(|l: Level| l@)),
    ensures
        grid(final(rows)@) == grid(old(rows)@) + levels@.map_values(|l: Level| l@).map_values(
            |l: LevelView| depth_cells(l),
        ),
{
    let ghost start = grid(rows@);
    let ghost all = levels@.map_values(|l: Level| l@).map_values(|l: LevelView| depth_cells(l));
    let mut i: usize = 0;
    assert(start + all.take(0) =~= start);
    while i < levels.len()
        invariant
            i <= levels@.len(),
            levels_have_room(levels@.map_values(|l: Level| l@)),
            all == levels@.map_values(|l: Level| l@).map_values(|l: LevelView| depth_cells(l)),
            grid(rows@) == start + all.take(i as int),
        decreases levels@.len() - i,
    {
        assert(levels@.map_values(|l: Level| l@)[i as int] == levels@[i as int]@);
        add_row(rows, depth_row(&levels[i]));
        i += 1;
        assert(start + all.take(i as int) =~= (start + all.take(i - 1)).push(all[i - 1]));
    }
    assert(all.take(i as int) =~= all);
}

// ----------------------------------------------------------------------- tape

/// A print as a row: when, at what price, how much, and who crossed the spread.
pub open spec fn tape_cells(trade: PublicTrade) -> Seq<Seq<char>> {
    seq![
        clock::time_text(trade.ts.0 as int) + "."@ + decimal::padded(
            clock::of_day(trade.ts.0 as int) % 1_000,
            3,
        ),
        shown(trade.price.parts()),
        shown(trade.qty.parts()),
        orders::side_text(trade.taker_side),
    ]
}

pub fn tape_row(trade: &PublicTrade) -> (r: Vec<String>)
    ensures
        table::texts(r@) == tape_cells(*trade),
{
    row4(
        clock::hms_millis(trade.ts.0),
        show(trade.price),
        show(trade.qty),
        orders::side_of(trade.taker_side).to_owned(),
    )
}

/// A print is shown with its price, its size and who took it, in this order.
pub proof fn a_print_is_a_row(trade: PublicTrade)
    ensures
        tape_cells(trade).len() == 4,
        tape_cells(trade)[0] == clock::time_text(trade.ts.0 as int) + "."@ + decimal::padded(
            trade.ts.0 as int % 86_400_000 % 1_000,
            3,
        ),
        tape_cells(trade)[1] == shown(trade.price.parts()),
        tape_cells(trade)[2] == shown(trade.qty.parts()),
        trade.taker_side is Buy ==> tape_cells(trade)[3] == "buy"@,
        trade.taker_side is Sell ==> tape_cells(trade)[3] == "sell"@,
{
}

pub open spec fn tape_heading() -> Seq<Seq<char>> {
    seq!["time"@, "price"@, "size"@, "taker"@]
}

/// The first `n` items.
pub open spec fn first<T>(items: Seq<T>, n: int) -> Seq<T> {
    if items.len() > n {
        items.take(n)
    } else {
        items
    }
}

/// The tape of an instrument, the newest print first.
///
/// "Nothing traded yet" is told apart from "this venue is not sending us trades": the second is a
/// real condition and looks identical otherwise.
pub fn tape(trades: &[PublicTrade], has_book: bool) -> (r: Panel)
    ensures
        r@ == if trades@.len() == 0 {
            PanelView::Note(
                if has_book {
                    "book is live but no trades have arrived"@
                } else {
                    "waiting for the instrument"@
                },
            )
        } else {
            PanelView::Rows(
                seq![tape_heading()] + first(trades@, TAPE_ROWS as int).map_values(
                    |t: PublicTrade| tape_cells(t),
                ),
            )
        },
{
    if trades.len() == 0 {
        return Panel::Note(
            if has_book {
                "book is live but no trades have arrived".to_owned()
            } else {
                "waiting for the instrument".to_owned()
            },
        );
    }
    let mut rows: Vec<Vec<String>> = Vec::new();
    add_row(
        &mut rows,
        row4("time".to_owned(), "price".to_owned(), "size".to_owned(), "taker".to_owned()),
    );
    let ghost head = seq![tape_heading()];
    let ghost all = first(trades@, TAPE_ROWS as int).map_values(|t: PublicTrade| tape_cells(t));
    assert(grid(rows@) =~= head + all.take(0));
    let mut i: usize = 0;
    while i < trades.len() && i < TAPE_ROWS
        invariant
            all == first(trades@, TAPE_ROWS as int).map_values(|t: PublicTrade| tape_cells(t)),
            i <= all.len(),
            all.len() == (if trades@.len() > TAPE_ROWS {
                TAPE_ROWS as int
            } else {
                trades@.len() as int
            }),
            grid(rows@) == head + all.take(i as int),
        decreases all.len() - i,
    {
        add_row(&mut rows, tape_row(&trades[i]));
        i += 1;
        assert(head + all.take(i as int) =~= (head + all.take(i - 1)).push(all[i - 1]));
    }
    assert(all.take(i as int) =~= all);
    Panel::Rows(rows)
}

// ---------------------------------------------------------------- instruments

/// An instrument as a row, and whether it has a book. One without stays listed: absent is
/// information.
pub open spec fn instrument_cells(state: FeedStateView, key: Seq<char>) -> Option<
    (Seq<Seq<char>>, bool),
> {
    let trades = decimal::digits(state.traded(key) as int);
    if state.books.contains_key(key) {
        let book = state.books[key];
        match book_view::spread_of(book) {
            Some(spread) => Some(
                (
                    seq![
                        label_of(key),
                        level_shown(crate::domain::market::best(book.bids)),
                        level_shown(crate::domain::market::best(book.asks)),
                        match spread {
                            Some(s) => shown(s),
                            None => "—"@,
                        },
                        trades,
                    ],
                    true,
                ),
            ),
            None => None,
        }
    } else {
        Some((seq![label_of(key), "—"@, "—"@, "—"@, trades], false))
    }
}

/// An instrument is listed with its best bid and its best ask, its spread and its trades; without a
/// book it is listed all the same, with its trades.
pub proof fn an_instrument_is_listed(state: FeedStateView, key: Seq<char>)
    requires
        instrument_cells(state, key) is Some,
    ensures
        ({
            let (cells, has_book) = instrument_cells(state, key)->0;
            let book = state.books[key];
            &&& cells.len() == 5
            &&& has_book == state.books.contains_key(key)
            &&& cells[0] == label_of(key)
            &&& cells[4] == decimal::digits(state.traded(key) as int)
            &&& !has_book ==> cells[1] == "—"@ && cells[2] == "—"@ && cells[3] == "—"@
            &&& has_book && book.bids.len() > 0 ==> cells[1] == shown(book.bids[0].price.parts())
                + "  × "@ + shown(book.bids[0].qty.parts())
            &&& has_book && book.asks.len() > 0 ==> cells[2] == shown(book.asks[0].price.parts())
                + "  × "@ + shown(book.asks[0].qty.parts())
            &&& has_book && book.bids.len() > 0 && book.asks.len() > 0 ==> cells[3] == shown(
                decimal::difference_of(book.asks[0].price.parts(), book.bids[0].price.parts())->0,
            )
            &&& has_book && (book.bids.len() == 0 || book.asks.len() == 0) ==> cells[3] == "—"@
        }),
{
}

/// A row of the instruments panel.
#[derive(Debug, PartialEq, Eq)]
pub struct InstrumentRow {
    pub cells: Vec<String>,
    /// Whether there is a book.
    pub attached: bool,
}

/// The row of one instrument. Nothing where its spread leaves the range of decimals.
pub fn instrument_row(state: &FeedState, key: &str) -> (r: Option<InstrumentRow>)
    requires
        state.wf(),
    ensures
        match r {
            Some(row) => instrument_cells(state@, key@) == Some(
                (table::texts(row.cells@), row.attached),
            ),
            None => instrument_cells(state@, key@) is None,
        },
{
    let trades = text::unsigned(state.trades(key));
    match state.book(key) {
        Some(book) => {
            let spread = match try_spread(book)? {
                Some(s) => show(s),
                None => "—".to_owned(),
            };
            Some(
                InstrumentRow {
                    cells: row5(
                        label(key),
                        level_text(book.best_bid()),
                        level_text(book.best_ask()),
                        spread,
                        trades,
                    ),
                    attached: true,
                },
            )
        },
        None => Some(
            InstrumentRow {
                cells: row5(
                    label(key),
                    "—".to_owned(),
                    "—".to_owned(),
                    "—".to_owned(),
                    trades,
                ),
                attached: false,
            },
        ),
    }
}

pub open spec fn instruments_headings() -> Seq<Seq<char>> {
    seq!["instrument"@, "bid"@, "ask"@, "spread"@, "trades"@]
}

/// What stands above the rows of the instruments panel.
pub fn instruments_heading() -> (r: Vec<String>)
    ensures
        table::texts(r@) == instruments_headings(),
{
    row5(
        "instrument".to_owned(),
        "bid".to_owned(),
        "ask".to_owned(),
        "spread".to_owned(),
        "trades".to_owned(),
    )
}

/// The instruments panel, in the order in which they are watched. Nothing where a spread leaves the
/// range of decimals.
pub fn instruments(state: &FeedState, watching: &[String]) -> (r: Option<Vec<InstrumentRow>>)
    requires
        state.wf(),
    ensures
        match r {
            Some(rows) => {
                &&& rows@.len() == watching@.len()
                &&& forall|i: int|
                    0 <= i < rows@.len() ==> instrument_cells(state@, watching@[i]@) == Some(
                        (table::texts((#[trigger] rows@[i]).cells@), rows@[i].attached),
                    )
            },
            None => exists|i: int|
                0 <= i < watching@.len() && instrument_cells(
                    state@,
                    (#[trigger] watching@[i])@,
                ) is None,
        },
{
    let mut rows: Vec<InstrumentRow> = Vec::new();
    let mut i: usize = 0;
    while i < watching.len()
        invariant
            state.wf(),
            i <= watching@.len(),
            rows@.len() == i,
            forall|j: int|
                0 <= j < i ==> instrument_cells(state@, watching@[j]@) == Some(
                    (table::texts((#[trigger] rows@[j]).cells@), rows@[j].attached),
                ),
        decreases watching@.len() - i,
    {
        match instrument_row(state, watching[i].as_str()) {
            Some(row) => {
                rows.push(row);
            },
            None => {
                assert(instrument_cells(state@, watching@[i as int]@) is None);
                return None;
            },
        }
        i += 1;
    }
    Some(rows)
}

// ---------------------------------------------------------------- core status

/// How many of the keys have a book.
pub open spec fn attached(state: FeedStateView, watching: Seq<Seq<char>>) -> int
    decreases watching.len(),
{
    if watching.len() == 0 {
        0
    } else {
        attached(state, watching.drop_last()) + if state.books.contains_key(watching.last()) {
            1int
        } else {
            0
        }
    }
}

/// The books that are counted are those of the instruments that are watched and have one.
pub proof fn books_are_counted(state: FeedStateView, watching: Seq<Seq<char>>)
    ensures
        attached(state, watching) == watching.filter(
            |key: Seq<char>| state.books.contains_key(key),
        ).len(),
    decreases watching.len(),
{
    reveal(Seq::filter);
    if watching.len() > 0 {
        books_are_counted(state, watching.drop_last());
    }
}

/// The core status panel.
pub open spec fn status_rows(
    state: FeedStateView,
    core: Seq<char>,
    watching: Seq<Seq<char>>,
) -> Seq<Seq<Seq<char>>> {
    seq![
        seq!["core"@, core],
        seq!["connection"@, state.status.label()],
        seq![
            "books"@,
            decimal::digits(attached(state, watching)) + " of "@ + decimal::digits(
                watching.len() as int,
            ) + " subscribed"@,
        ],
        seq!["keys"@, "none on this machine — they live in the core"@],
        seq![
            "last note"@,
            match state.core_note {
                Some(note) => note,
                None => "—"@,
            },
        ],
    ]
}

/// The status shows the core, how the connection is, how many of the books there are, and the last
/// note.
pub proof fn the_status_is_shown(state: FeedStateView, core: Seq<char>, watching: Seq<Seq<char>>)
    ensures
        ({
            let rows = status_rows(state, core, watching);
            &&& rows.len() == 5
            &&& rows[0][1] == core
            &&& rows[1][1] == state.status.label()
            &&& rows[2][1] == decimal::digits(attached(state, watching)) + " of "@
                + decimal::digits(watching.len() as int) + " subscribed"@
            &&& state.core_note matches Some(note) ==> rows[4][1] == note
            &&& state.core_note is None ==> rows[4][1] == "—"@
        }),
{
}

/// The line between the sides has the mid and the spread, where there are both sides.
pub proof fn the_spread_is_shown(view: DepthViewView)
    ensures
        view.mid is Some && view.spread is Some && view.spread_pct is Some ==> spread_line(view)
            == shown(view.mid->0) + "   spread "@ + shown(view.spread->0) + "  ("@
            + decimal::thousandths_text((view.spread_pct->0).0, (view.spread_pct->0).1) + "%)"@,
        view.mid is None || view.spread is None || view.spread_pct is None ==> spread_line(view)
            == "no two-sided market"@,
{
}

pub fn core_status(state: &FeedState, core: &str, watching: &[String]) -> (r: Vec<Vec<String>>)
    requires
        state.wf(),
        watching@.len() <= u64::MAX,
    ensures
        grid(r@) == status_rows(state@, core@, table::texts(watching@)),
{
    let ghost keys = table::texts(watching@);
    let mut synced: u64 = 0;
    let mut i: usize = 0;
    assert(keys.take(0) =~= Seq::<Seq<char>>::empty());
    while i < watching.len()
        invariant
            state.wf(),
            i <= watching@.len() <= u64::MAX,
            keys == table::texts(watching@),
            synced == attached(state@, keys.take(i as int)),
            synced <= i,
        decreases watching@.len() - i,
    {
        assert(keys.take(i + 1).drop_last() =~= keys.take(i as int));
        if state.book(watching[i].as_str()).is_some() {
            synced += 1;
        }
        i += 1;
    }
    assert(keys.take(i as int) =~= keys);
    let mut books = text::unsigned(synced);
    books.append(" of ");
    books.append(text::unsigned(watching.len() as u64).as_str());
    books.append(" subscribed");
    let note = match state.core_note() {
        Some(note) => note.clone(),
        None => "—".to_owned(),
    };
    let mut rows: Vec<Vec<String>> = Vec::new();
    assert(grid(rows@) =~= Seq::<Seq<Seq<char>>>::empty());
    add_row(&mut rows, row2("core".to_owned(), core.to_owned()));
    add_row(&mut rows, row2("connection".to_owned(), state.status().label()));
    add_row(&mut rows, row2("books".to_owned(), books));
    add_row(
        &mut rows,
        row2(
            "keys".to_owned(),
            "none on this machine — they live in the core".to_owned(),
        ),
    );
    add_row(&mut rows, row2("last note".to_owned(), note));
    proof {
        let want = status_rows(state@, core@, keys);
        assert(grid(rows@)[0] =~= want[0]);
        assert(grid(rows@)[1] =~= want[1]);
        assert(grid(rows@)[2] =~= want[2]);
        assert(grid(rows@)[3] =~= want[3]);
        assert(grid(rows@)[4] =~= want[4]);
        assert(grid(rows@) =~= want);
    }
    rows
}

// ------------------------------------------------------------------------ log

#[derive(Clone, Copy, Debug, PartialEq, Eq, Structural)]
pub enum LogLevel {
    Info,
    Warn,
}

#[derive(Debug, PartialEq, Eq)]
pub struct LogLine {
    /// Milliseconds since the Unix epoch.
    pub at: i64,
    pub level: LogLevel,
    pub text: String,
}

pub open spec fn log_cells(line: LogLine) -> Seq<Seq<char>> {
    seq![
        clock::time_text(line.at as int) + "."@ + decimal::padded(
            clock::of_day(line.at as int) % 1_000,
            3,
        ),
        line.text@,
    ]
}

/// The log, the newest line first.
pub fn log(lines: &[LogLine]) -> (r: Panel)
    ensures
        r@ == if lines@.len() == 0 {
            PanelView::Note("nothing logged yet"@)
        } else {
            PanelView::Rows(
                first(lines@, LOG_ROWS as int).map_values(|l: LogLine| log_cells(l)),
            )
        },
{
    if lines.len() == 0 {
        return Panel::Note("nothing logged yet".to_owned());
    }
    let mut rows: Vec<Vec<String>> = Vec::new();
    let ghost all = first(lines@, LOG_ROWS as int).map_values(|l: LogLine| log_cells(l));
    assert(grid(rows@) =~= all.take(0));
    let mut i: usize = 0;
    while i < lines.len() && i < LOG_ROWS
        invariant
            all == first(lines@, LOG_ROWS as int).map_values(|l: LogLine| log_cells(l)),
            i <= all.len(),
            all.len() == (if lines@.len() > LOG_ROWS {
                LOG_ROWS as int
            } else {
                lines@.len() as int
            }),
            grid(rows@) == all.take(i as int),
        decreases all.len() - i,
    {
        add_row(&mut rows, row2(clock::hms_millis(lines[i].at), lines[i].text.clone()));
        i += 1;
        assert(all.take(i as int) =~= all.take(i - 1).push(all[i - 1]));
    }
    assert(all.take(i as int) =~= all);
    Panel::Rows(rows)
}

// ---------------------------------------------------------------------- chart

/// Where the chart will go: the mid, the instrument, and that it is not built. An unbuilt feature
/// and a broken one look the same on screen, and only one of them deserves a report. Nothing where
/// the mid leaves the range of decimals.
pub fn chart_placeholder(state: &FeedState, key: &str) -> (r: Option<Vec<String>>)
    requires
        state.wf(),
    ensures
        ({
            let mid = if state@.books.contains_key(key@) {
                book_view::mid_of(state@.books[key@])
            } else {
                Some(None)
            };
            match mid {
                Some(mid) => r matches Some(lines) && table::texts(lines@) == seq![
                    match mid {
                        Some(m) => shown(m),
                        None => "—"@,
                    },
                    label_of(key@),
                    "tick chart is not built yet"@,
                ],
                None => r is None,
            }
        }),
{
    let mid = match state.book(key) {
        Some(book) => try_mid(book)?,
        None => None,
    };
    let price = match mid {
        Some(m) => show(m),
        None => "—".to_owned(),
    };
    let name = label(key);
    let ghost (p, n) = (price@, name@);
    let lines = vec![price, name, "tick chart is not built yet".to_owned()];
    assert(table::texts(lines@) =~= seq![p, n, "tick chart is not built yet"@]);
    Some(lines)
}

// ----------------------------------------------------------------------- shell

/// A level of the shell, with every digit the venue sent.
pub open spec fn raw_level(level: Option<BookLevel>) -> Seq<char> {
    match level {
        Some(l) => decimal::decimal_text(l.price.parts().0, l.price.parts().1) + "  × "@
            + decimal::decimal_text(l.qty.parts().0, l.qty.parts().1),
        None => "—"@,
    }
}

fn raw_level_text(level: Option<BookLevel>) -> (r: String)
    ensures
        r@ == raw_level(level),
{
    match level {
        Some(l) => {
            let mut r = l.price.to_string();
            r.append("  × ");
            r.append(l.qty.to_string().as_str());
            r
        },
        None => "—".to_owned(),
    }
}

/// A book as a row of the shell.
pub open spec fn shell_cells(
    key: Seq<char>,
    book: OrderBookView,
    trades: u64,
    spread: Option<(int, int)>,
) -> Seq<Seq<char>> {
    seq![
        label_of(key),
        raw_level(crate::domain::market::best(book.bids)),
        raw_level(crate::domain::market::best(book.asks)),
        match spread {
            Some(s) => "spread "@ + decimal::decimal_text(s.0, s.1),
            None => ""@,
        },
        decimal::digits(trades as int) + " trades"@,
    ]
}

/// Whether a row is that of a book.
pub open spec fn shell_row(state: FeedStateView, key: Seq<char>, row: Seq<Seq<char>>) -> bool {
    book_view::spread_of(state.books[key]) matches Some(spread) && row == shell_cells(
        key,
        state.books[key],
        state.traded(key),
        spread,
    )
}

/// A book of the shell is shown with every digit the venue sent, bid before ask.
pub proof fn a_book_is_a_row_of_the_shell(
    state: FeedStateView,
    key: Seq<char>,
    row: Seq<Seq<char>>,
)
    requires
        shell_row(state, key, row),
    ensures
        ({
            let book = state.books[key];
            let (bid, ask) = (book.bids[0], book.asks[0]);
            &&& row.len() == 5
            &&& row[0] == label_of(key)
            &&& book.bids.len() > 0 ==> row[1] == decimal::decimal_text(
                bid.price.parts().0,
                bid.price.parts().1,
            ) + "  × "@ + decimal::decimal_text(bid.qty.parts().0, bid.qty.parts().1)
            &&& book.asks.len() > 0 ==> row[2] == decimal::decimal_text(
                ask.price.parts().0,
                ask.price.parts().1,
            ) + "  × "@ + decimal::decimal_text(ask.qty.parts().0, ask.qty.parts().1)
            &&& book.bids.len() == 0 ==> row[1] == "—"@
            &&& book.asks.len() == 0 ==> row[2] == "—"@
            &&& row[4] == decimal::digits(state.traded(key) as int) + " trades"@
        }),
{
}

fn book_row(key: &str, book: &OrderBook, trades: u64) -> (r: Option<Vec<String>>)
    ensures
        match book_view::spread_of(book@) {
            Some(spread) => r matches Some(row) && table::texts(row@) == shell_cells(
                key@,
                book@,
                trades,
                spread,
            ),
            None => r is None,
        },
{
    let spread = match try_spread(book)? {
        Some(s) => {
            let mut t = "spread ".to_owned();
            t.append(s.to_string().as_str());
            t
        },
        None => "".to_owned(),
    };
    let mut count = text::unsigned(trades);
    count.append(" trades");
    Some(
        row5(
            label(key),
            raw_level_text(book.best_bid()),
            raw_level_text(book.best_ask()),
            spread,
            count,
        ),
    )
}

/// One row per book, or a line that says why there is none, so that an empty screen is never
/// ambiguous. Nothing where a spread leaves the range of decimals.
pub fn book_rows(state: &FeedState) -> (r: Option<Panel>)
    requires
        state.wf(),
    ensures
        if state.keys().len() == 0 {
            r matches Some(p) && p@ == PanelView::Note(
                if state@.status is Live {
                    "subscribed — waiting for the first book"@
                } else {
                    "not connected to a core"@
                },
            )
        } else {
            match r {
                Some(p) => p@ matches PanelView::Rows(rows) && rows.len() == state.keys().len()
                    && forall|i: int|
                    0 <= i < rows.len() ==> shell_row(
                        state@,
                        state.keys()[i],
                        #[trigger] rows[i],
                    ),
                None => exists|i: int|
                    0 <= i < state.keys().len() && book_view::spread_of(
                        state@.books[#[trigger] state.keys()[i]],
                    ) is None,
            }
        },
{
    if state.is_empty() {
        return Some(
            Panel::Note(
                if state.status().is_live() {
                    "subscribed — waiting for the first book".to_owned()
                } else {
                    "not connected to a core".to_owned()
                },
            ),
        );
    }
    let mut rows: Vec<Vec<String>> = Vec::new();
    let mut i: usize = 0;
    while i < state.len()
        invariant
            state.wf(),
            state.keys().len() > 0,
            i <= state.keys().len(),
            grid(rows@).len() == i,
            forall|j: int|
                0 <= j < i ==> shell_row(state@, state.keys()[j], #[trigger] grid(rows@)[j]),
        decreases state.keys().len() - i,
    {
        let key = state.key_at(i);
        proof {
            state.lemma_keys();
            assert(state.keys().contains(state.keys()[i as int]));
        }
        if let Some(book) = state.book(key.as_str()) {
            match book_row(key.as_str(), book, state.trades(key.as_str())) {
                Some(row) => {
                    add_row(&mut rows, row);
                },
                None => {
                    assert(book_view::spread_of(state@.books[state.keys()[i as int]]) is None);
                    return None;
                },
            }
        }
        i += 1;
    }
    Some(Panel::Rows(rows))
}

/// The line at the top: the program, the core, and how the connection is.
pub fn header(state: &FeedState, core: &str) -> (r: Vec<String>)
    ensures
        table::texts(r@) == seq!["moonterm"@, core@, state@.status.label()],
{
    let label = state.status().label();
    let ghost l = label@;
    let r = vec!["moonterm".to_owned(), core.to_owned(), label];
    assert(table::texts(r@) =~= seq!["moonterm"@, core@, l]);
    r
}

/// The line at the bottom.
pub fn status_bar(state: &FeedState) -> (r: Vec<String>)
    requires
        state.wf(),
        state.keys().len() <= u64::MAX,
    ensures
        table::texts(r@) == seq![
            state@.status.label(),
            decimal::digits(state.keys().len() as int) + " books"@,
            "no keys on this machine"@,
        ],
{
    let label = state.status().label();
    let mut books = text::unsigned(state.len() as u64);
    books.append(" books");
    let ghost (l, b) = (label@, books@);
    let r = vec![label, books, "no keys on this machine".to_owned()];
    assert(table::texts(r@) =~= seq![l, b, "no keys on this machine"@]);
    r
}

} // verus!

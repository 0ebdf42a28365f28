//! What the report screens and the startup ask of the database.

use crate::decimal;
use crate::decimal::Decimal;
use crate::domain::order::OrderStatus;
use crate::storage::orders;
use crate::table;
use crate::text;
use vstd::prelude::*;

verus! {

/// What a report reads of a deal.
#[derive(Debug, PartialEq, Eq)]
pub struct DealRow {
    pub core_uid: i64,
    pub phase: String,
    pub closed_at: Option<i64>,
    pub realized: String,
}

impl DealRow {
    /// Whether a deal of one core closed within a period, its end not included.
    pub open spec fn closed_within(self, core_uid: i64, from_ms: i64, to_ms: i64) -> bool {
        &&& self.core_uid == core_uid
        &&& self.phase@ == "closed"@
        &&& self.closed_at matches Some(at) && from_ms <= at < to_ms
    }
}

/// Aggregates a report screen asks for.
#[derive(Debug, PartialEq, Eq)]
pub struct PeriodSummary {
    pub deals: i64,
    /// The total as exact text: summed through a double, three trades are enough to be wrong.
    pub realized: String,
    pub wins: i64,
    pub losses: i64,
}

/// The amount a text holds, zero where it holds none.
pub open spec fn amount(text: Seq<char>) -> (int, int) {
    match decimal::decimal_parsed(text) {
        Some(parts) => parts,
        None => (0, 0),
    }
}

/// What the deals that closed within a period realised, in the order of the rows.
pub open spec fn realised(rows: Seq<DealRow>, core_uid: i64, from_ms: i64, to_ms: i64) -> Seq<
    (int, int),
>
    decreases rows.len(),
{
    if rows.len() == 0 {
        Seq::empty()
    } else {
        let rest = realised(rows.drop_last(), core_uid, from_ms, to_ms);
        if rows.last().closed_within(core_uid, from_ms, to_ms) {
            rest.push(amount(rows.last().realized@))
        } else {
            rest
        }
    }
}

/// How many amounts are above zero, and how many below. One of zero is neither.
pub open spec fn above(amounts: Seq<(int, int)>) -> int
    decreases amounts.len(),
{
    if amounts.len() == 0 {
        0
    } else {
        above(amounts.drop_last()) + if amounts.last().0 > 0 {
            1int
        } else {
            0
        }
    }
}

pub open spec fn below(amounts: Seq<(int, int)>) -> int
    decreases amounts.len(),
{
    if amounts.len() == 0 {
        0
    } else {
        below(amounts.drop_last()) + if amounts.last().0 < 0 {
            1int
        } else {
            0
        }
    }
}

/// Everything closed within a period, for one core. Nothing where the total leaves the range of
/// decimals.
pub fn period_summary(rows: &[DealRow], core_uid: i64, from_ms: i64, to_ms: i64) -> (r: Option<
    PeriodSummary,
>)
    requires
        rows@.len() <= i64::MAX,
    ensures
        ({
            let amounts = realised(rows@, core_uid, from_ms, to_ms);
            &&& match r {
                Some(summary) => {
                    &&& decimal::running(amounts) matches Some(total) && summary.realized@
                        == decimal::decimal_text(total.0, total.1)
                    &&& summary.deals == amounts.len()
                    &&& summary.wins == above(amounts)
                    &&& summary.losses == below(amounts)
                },
                None => decimal::running(amounts) is None,
            }
            &&& decimal::adds_up(amounts) ==> r is Some && decimal::running(amounts) == Some(decimal::exact_total(amounts))
        }),
{
    let mut deals: i64 = 0;
    let mut wins: i64 = 0;
    let mut losses: i64 = 0;
    let mut total = Decimal::zero();
    let mut broken: bool = false;
    let mut i: usize = 0;
    let ghost amounts = Seq::<(int, int)>::empty();
    assert(rows@.take(0) =~= Seq::<DealRow>::empty());
    while i < rows.len()
        invariant
            i <= rows@.len() <= i64::MAX,
            amounts == realised(rows@.take(i as int), core_uid, from_ms, to_ms),
            amounts.len() <= i,
            deals == amounts.len(),
            wins == above(amounts),
            losses == below(amounts),
            0 <= wins <= amounts.len(),
            0 <= losses <= amounts.len(),
            if broken {
                decimal::running(amounts) is None && !decimal::adds_up(amounts)
            } else {
                decimal::running(amounts) == Some(total.parts())
            },
            decimal::adds_up(amounts) ==> decimal::running(amounts) == Some(decimal::exact_total(amounts)),
        decreases rows@.len() - i,
    {
        let row = &rows[i];
        assert(rows@.take(i + 1).drop_last() =~= rows@.take(i as int));
        let inside: bool = match row.closed_at {
            Some(at) => from_ms <= at && at < to_ms,
            None => false,
        };
        if inside && row.core_uid == core_uid && text::same(row.phase.as_str(), "closed") {
            let value = match Decimal::parse(row.realized.as_str()) {
                Some(d) => d,
                None => Decimal::zero(),
            };
            let ghost more = amounts.push(amount(row.realized@));
            assert(more.drop_last() =~= amounts);
            assert(value.parts() == more.last());
            let zero = Decimal::zero();
            proof {
                decimal::lemma_units_sign(value.parts().0, value.parts().1);
                decimal::lemma_units_sign(0, 0);
            }
            deals += 1;
            if value.less(zero) {
                losses += 1;
            } else if !value.is_zero() {
                wins += 1;
            }
            if !broken {
                match total.checked_add(value) {
                    Some(sum) => {
                        total = sum;
                    },
                    None => {
                        broken = true;
                    },
                }
            }
            proof {
                amounts = more;
            }
        }
        i += 1;
    }
    assert(rows@.take(i as int) =~= rows@);
    if broken {
        return None;
    }
    Some(PeriodSummary { deals, realized: total.to_string(), wins, losses })
}

/// Where every digit can be kept, the total of a report is the sum of its amounts, exactly, and not
/// what a double makes of it.
pub proof fn the_total_is_exact(amounts: Seq<(int, int)>)
    requires
        decimal::adds_up(amounts),
        forall|i: int|
            0 <= i < amounts.len() ==> decimal::holds((#[trigger] amounts[i]).0, amounts[i].1),
    ensures
        decimal::units(decimal::exact_total(amounts).0, decimal::exact_total(amounts).1)
            == decimal::sum_units(amounts),
{
    decimal::lemma_exact_total(amounts);
}

/// Every deal of a report is a win, a loss or neither, and a deal that broke even is neither.
pub proof fn wins_and_losses_are_apart(amounts: Seq<(int, int)>)
    ensures
        above(amounts) >= 0,
        below(amounts) >= 0,
        above(amounts) + below(amounts) <= amounts.len(),
        (forall|i: int| 0 <= i < amounts.len() ==> (#[trigger] amounts[i]).0 == 0) ==> above(
            amounts,
        ) == 0 && below(amounts) == 0,
    decreases amounts.len(),
{
    if amounts.len() > 0 {
        let rest = amounts.drop_last();
        wins_and_losses_are_apart(rest);
        if forall|i: int| 0 <= i < amounts.len() ==> (#[trigger] amounts[i]).0 == 0 {
            assert forall|i: int| 0 <= i < rest.len() implies (#[trigger] rest[i]).0 == 0 by {
                assert(rest[i] == amounts[i]);
            }
            assert(amounts[amounts.len() - 1].0 == 0);
        }
    }
}

/// A report is of the deals of its core that are closed and closed at or after its beginning and
/// before its end: all of them, in order, and no other.
pub proof fn a_report_is_of_its_period(
    rows: Seq<DealRow>,
    core_uid: i64,
    from_ms: i64,
    to_ms: i64,
)
    ensures
        realised(rows, core_uid, from_ms, to_ms) == rows.filter(
            |row: DealRow|
                row.core_uid == core_uid && row.phase@ == "closed"@ && row.closed_at is Some
                    && from_ms <= row.closed_at->0 && row.closed_at->0 < to_ms,
        ).map_values(|row: DealRow| amount(row.realized@)),
    decreases rows.len(),
{
    reveal(Seq::filter);
    let inside = |row: DealRow|
        row.core_uid == core_uid && row.phase@ == "closed"@ && row.closed_at is Some && from_ms
            <= row.closed_at->0 && row.closed_at->0 < to_ms;
    if rows.len() > 0 {
        a_report_is_of_its_period(rows.drop_last(), core_uid, from_ms, to_ms);
        assert(inside(rows.last()) == rows.last().closed_within(core_uid, from_ms, to_ms));
    }
    assert(realised(rows, core_uid, from_ms, to_ms) =~= rows.filter(inside).map_values(
        |row: DealRow| amount(row.realized@),
    ));
}

/// Periods that follow each other share no deal and lose none: what two of them count is what the
/// one over both counts.
pub proof fn adjacent_periods_add_up(
    rows: Seq<DealRow>,
    core_uid: i64,
    from_ms: i64,
    mid_ms: i64,
    to_ms: i64,
)
    requires
        from_ms <= mid_ms <= to_ms,
    ensures
        ({
            let first = realised(rows, core_uid, from_ms, mid_ms);
            let second = realised(rows, core_uid, mid_ms, to_ms);
            let both = realised(rows, core_uid, from_ms, to_ms);
            &&& first.len() + second.len() == both.len()
            &&& above(first) + above(second) == above(both)
            &&& below(first) + below(second) == below(both)
        }),
    decreases rows.len(),
{
    if rows.len() > 0 {
        let rest = rows.drop_last();
        adjacent_periods_add_up(rest, core_uid, from_ms, mid_ms, to_ms);
        let a = amount(rows.last().realized@);
        lemma_one_more_amount(realised(rest, core_uid, from_ms, mid_ms), a);
        lemma_one_more_amount(realised(rest, core_uid, mid_ms, to_ms), a);
        lemma_one_more_amount(realised(rest, core_uid, from_ms, to_ms), a);
    }
}

proof fn lemma_one_more_amount(amounts: Seq<(int, int)>, a: (int, int))
    ensures
        above(amounts.push(a)) == above(amounts) + if a.0 > 0 {
            1int
        } else {
            0
        },
        below(amounts.push(a)) == below(amounts) + if a.0 < 0 {
            1int
        } else {
            0
        },
{
    assert(amounts.push(a).drop_last() =~= amounts);
}

/// What a text says counts, and a text that says no amount counts for nothing.
pub proof fn what_is_no_amount_counts_for_nothing(text: Seq<char>)
    ensures
        decimal::decimal_parsed(text) matches Some(parts) ==> amount(text) == parts,
        decimal::decimal_parsed(text) is None ==> amount(text) == (0int, 0int),
{
}

/// A win is a deal that realised more than nothing, a loss one that realised less.
pub proof fn wins_and_losses_are_by_sign(amounts: Seq<(int, int)>)
    ensures
        above(amounts) == amounts.filter(|a: (int, int)| a.0 > 0).len(),
        below(amounts) == amounts.filter(|a: (int, int)| a.0 < 0).len(),
    decreases amounts.len(),
{
    reveal(Seq::filter);
    if amounts.len() > 0 {
        wins_and_losses_are_by_sign(amounts.drop_last());
    }
}

/// What the startup reads of an order.
#[derive(Debug, PartialEq, Eq)]
pub struct OrderRow {
    pub client_id: String,
    pub status: String,
    pub created_at: i64,
}

/// Whether an order stored under a status is done with. Both spellings of a cancelled order are.
pub open spec fn resolved(status: Seq<char>) -> bool {
    ||| status == "filled"@
    ||| status == "canceled"@
    ||| status == "cancelled"@
    ||| status == "rejected"@
    ||| status == "expired"@
}

pub fn is_resolved(status: &str) -> (r: bool)
    ensures
        r == resolved(status@),
{
    text::same(status, "filled") || text::same(status, "canceled") || text::same(
        status,
        "cancelled",
    ) || text::same(status, "rejected") || text::same(status, "expired")
}

/// An order waits for reconciliation exactly while it can still change: one that was recorded
/// and never answered is among them, and one in a terminal state is not.
pub proof fn reconciliation_takes_what_is_open(status: OrderStatus)
    ensures
        resolved(orders::status_text(status)) == status.terminal(),
        resolved("cancelled"@),
{
    reveal_strlit("pending");
    reveal_strlit("new");
    reveal_strlit("partially_filled");
    reveal_strlit("filled");
    reveal_strlit("canceled");
    reveal_strlit("cancelled");
    reveal_strlit("rejected");
    reveal_strlit("expired");
    assert(orders::PENDING@ == "pending"@);
    assert("pending"@.len() == 7 && "pending"@[0] == 'p');
    assert("new"@.len() == 3);
    assert("partially_filled"@.len() == 16);
    assert("filled"@.len() == 6);
    assert("canceled"@.len() == 8);
    assert("cancelled"@.len() == 9);
    assert("rejected"@.len() == 8);
    assert("expired"@.len() == 7 && "expired"@[0] == 'e');
}

/// A list in the order of age with one more put in, behind those that are as old.
pub open spec fn queued(list: Seq<(Seq<char>, i64)>, item: (Seq<char>, i64)) -> Seq<
    (Seq<char>, i64),
>
    decreases list.len(),
{
    if list.len() == 0 || list.last().1 <= item.1 {
        list.push(item)
    } else {
        queued(list.drop_last(), item).push(list.last())
    }
}

/// The orders that are not done with, oldest first.
pub open spec fn waiting(rows: Seq<OrderRow>) -> Seq<(Seq<char>, i64)>
    decreases rows.len(),
{
    if rows.len() == 0 {
        Seq::empty()
    } else {
        let rest = waiting(rows.drop_last());
        if resolved(rows.last().status@) {
            rest
        } else {
            queued(rest, (rows.last().client_id@, rows.last().created_at))
        }
    }
}

/// Orders that were written but never reached a terminal state, oldest first.
///
/// What the core asks for at startup: every one of them is an order the venue may or may not know
/// about, and has to be reconciled before trading resumes.
pub fn unresolved_orders(rows: &[OrderRow]) -> (r: Vec<String>)
    ensures
        table::texts(r@) == waiting(rows@).map_values(|o: (Seq<char>, i64)| o.0),
{
    let mut ids: Vec<String> = Vec::new();
    let mut ages: Vec<i64> = Vec::new();
    let ghost list = Seq::<(Seq<char>, i64)>::empty();
    let mut i: usize = 0;
    assert(rows@.take(0) =~= Seq::<OrderRow>::empty());
    while i < rows.len()
        invariant
            i <= rows@.len(),
            list == waiting(rows@.take(i as int)),
            list.len() == ids@.len() == ages@.len(),
            forall|j: int| 0 <= j < list.len() ==> (#[trigger] list[j]).0 == ids@[j]@,
            forall|j: int| 0 <= j < list.len() ==> (#[trigger] list[j]).1 == ages@[j],
        decreases rows@.len() - i,
    {
        let row = &rows[i];
        assert(rows@.take(i + 1).drop_last() =~= rows@.take(i as int));
        if !is_resolved(row.status.as_str()) {
            let ghost item = (row.client_id@, row.created_at);
            let mut p: usize = ages.len();
            while p > 0 && ages[p - 1] > row.created_at
                invariant
                    p <= ages@.len(),
                    list.len() == ages@.len(),
                    forall|j: int| 0 <= j < list.len() ==> (#[trigger] list[j]).1 == ages@[j],
                    forall|j: int| p <= j < ages@.len() ==> #[trigger] ages@[j] > row.created_at,
                    item == (row.client_id@, row.created_at),
                decreases p,
            {
                p -= 1;
            }
            proof {
                assert forall|j: int| p <= j < list.len() implies (#[trigger] list[j]).1
                    > item.1 by {
                    assert(ages@[j] > row.created_at);
                }
                assert(p > 0 ==> list[p - 1].1 == ages@[p - 1]);
                lemma_queued(list, item, p as int);
            }
            ids.insert(p, row.client_id.clone());
            ages.insert(p, row.created_at);
            proof {
                list = list.insert(p as int, item);
            }
        }
        i += 1;
    }
    assert(rows@.take(i as int) =~= rows@);
    assert(table::texts(ids@) =~= list.map_values(|o: (Seq<char>, i64)| o.0));
    ids
}

proof fn lemma_queued(list: Seq<(Seq<char>, i64)>, item: (Seq<char>, i64), p: int)
    requires
        0 <= p <= list.len(),
        forall|j: int| p <= j < list.len() ==> (#[trigger] list[j]).1 > item.1,
        p > 0 ==> list[p - 1].1 <= item.1,
    ensures
        queued(list, item) == list.insert(p, item),
    decreases list.len(),
{
    if p == list.len() {
        assert(list.insert(p, item) =~= list.push(item));
    } else {
        assert(list[list.len() - 1].1 > item.1);
        let rest = list.drop_last();
        assert forall|j: int| p <= j < rest.len() implies (#[trigger] rest[j]).1 > item.1 by {
            assert(rest[j] == list[j]);
        }
        lemma_queued(rest, item, p);
        assert(rest.insert(p, item).push(list.last()) =~= list.insert(p, item));
    }
}

/// The orders that wait come oldest first, so that a run that is cut short leaves a prefix done.
pub proof fn oldest_come_first(rows: Seq<OrderRow>, i: int, j: int)
    requires
        0 <= i <= j < waiting(rows).len(),
    ensures
        waiting(rows)[i].1 <= waiting(rows)[j].1,
{
    lemma_waiting_sorted(rows);
}

pub open spec fn by_age(list: Seq<(Seq<char>, i64)>) -> bool {
    forall|i: int, j: int|
        0 <= i <= j < list.len() ==> (#[trigger] list[i]).1 <= (#[trigger] list[j]).1
}

proof fn lemma_waiting_sorted(rows: Seq<OrderRow>)
    ensures
        by_age(waiting(rows)),
    decreases rows.len(),
{
    if rows.len() > 0 {
        lemma_waiting_sorted(rows.drop_last());
        if !resolved(rows.last().status@) {
            lemma_queued_sorted(
                waiting(rows.drop_last()),
                (rows.last().client_id@, rows.last().created_at),
            );
        }
    }
}

proof fn lemma_queued_sorted(list: Seq<(Seq<char>, i64)>, item: (Seq<char>, i64))
    requires
        by_age(list),
    ensures
        by_age(queued(list, item)),
        forall|k: int|
            0 <= k < queued(list, item).len() ==> (#[trigger] queued(list, item)[k]).1 <= item.1 || (
            list.len() > 0 && queued(list, item)[k].1 <= list.last().1),
    decreases list.len(),
{
    if list.len() > 0 && list.last().1 > item.1 {
        let rest = list.drop_last();
        assert(by_age(rest)) by {
            assert forall|i: int, j: int| 0 <= i <= j < rest.len() implies (
            #[trigger] rest[i]).1 <= (#[trigger] rest[j]).1 by {
                assert(list[i].1 <= list[j].1);
            }
        }
        lemma_queued_sorted(rest, item);
        if rest.len() > 0 {
            assert(list[rest.len() - 1].1 <= list[list.len() - 1].1);
        }
    } else if list.len() > 0 {
        assert forall|i: int, j: int|
            0 <= i <= j < list.push(item).len() implies (#[trigger] list.push(item)[i]).1 <= (
        #[trigger] list.push(item)[j]).1 by {
            if i < list.len() {
                assert(list[i].1 <= list[list.len() - 1].1);
                if j < list.len() {
                    assert(list[i].1 <= list[j].1);
                }
            }
        }
    }
}

/// No order that is not done with is lost, and none is listed that is: the list holds exactly
/// the rows whose status is not a final one, each as often as it is there.
pub proof fn none_is_lost(rows: Seq<OrderRow>)
    ensures
        waiting(rows).to_multiset() =~= open_rows(rows).to_multiset(),
    decreases rows.len(),
{
    broadcast use vstd::seq_lib::group_to_multiset_ensures;

    if rows.len() > 0 {
        none_is_lost(rows.drop_last());
        if !resolved(rows.last().status@) {
            lemma_queued_multiset(
                waiting(rows.drop_last()),
                (rows.last().client_id@, rows.last().created_at),
            );
        }
    }
}

/// The rows that are not done with, as they stand.
pub open spec fn open_rows(rows: Seq<OrderRow>) -> Seq<(Seq<char>, i64)>
    decreases rows.len(),
{
    if rows.len() == 0 {
        Seq::empty()
    } else {
        let rest = open_rows(rows.drop_last());
        if resolved(rows.last().status@) {
            rest
        } else {
            rest.push((rows.last().client_id@, rows.last().created_at))
        }
    }
}

proof fn lemma_queued_multiset(list: Seq<(Seq<char>, i64)>, item: (Seq<char>, i64))
    ensures
        queued(list, item).to_multiset() =~= list.to_multiset().insert(item),
    decreases list.len(),
{
    broadcast use vstd::seq_lib::group_to_multiset_ensures;

    if list.len() > 0 && list.last().1 > item.1 {
        lemma_queued_multiset(list.drop_last(), item);
        assert(list =~= list.drop_last().push(list.last()));
    }
}

} // verus!

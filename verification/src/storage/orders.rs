//! Recording an order before it exists anywhere else.
//!
//! Sending an order is irreversible and takes an unknown amount of time. Between the decision and
//! the venue's acknowledgement there is a window in which the process can die. Recorded after
//! sending, a crash inside the window leaves an order at the venue that the core has never heard
//! of. Recorded before, the worst case is a pending row that the venue never received: a stray
//! row, and not an unmanaged position.
//!
//! So each of these is to be written durably, and the intent is to be on disk before the request
//! goes out.

use crate::decimal;
use crate::decimal::Decimal;
use crate::domain::order::{NewOrder, Order, OrderStatus, OrderType, Side};
use crate::storage::schema::sql;
use crate::storage::store::{Value, ValueView, Write, WriteView};
use vstd::prelude::*;

verus! {

/// The state an order is written in before anyone has heard of it.
pub const PENDING: &'static str = "pending";

pub open spec fn side_text(side: Side) -> Seq<char> {
    match side {
        Side::Buy => "buy"@,
        Side::Sell => "sell"@,
    }
}

pub open spec fn type_text(order_type: OrderType) -> Seq<char> {
    match order_type {
        OrderType::Limit => "limit"@,
        OrderType::Market => "market"@,
        OrderType::StopMarket => "stopmarket"@,
        OrderType::StopLimit => "stoplimit"@,
        OrderType::TakeProfitMarket => "takeprofitmarket"@,
        OrderType::TakeProfitLimit => "takeprofitlimit"@,
    }
}

pub open spec fn status_text(status: OrderStatus) -> Seq<char> {
    match status {
        OrderStatus::Pending => PENDING@,
        OrderStatus::New => "new"@,
        OrderStatus::PartiallyFilled => "partially_filled"@,
        OrderStatus::Filled => "filled"@,
        OrderStatus::Canceled => "canceled"@,
        OrderStatus::Rejected => "rejected"@,
        OrderStatus::Expired => "expired"@,
    }
}

pub fn side_of(side: Side) -> (r: &'static str)
    ensures
        r@ == side_text(side),
{
    match side {
        Side::Buy => "buy",
        Side::Sell => "sell",
    }
}

/// The name an order type is stored under.
pub fn type_of(order_type: OrderType) -> (r: &'static str)
    ensures
        r@ == type_text(order_type),
{
    match order_type {
        OrderType::Limit => "limit",
        OrderType::Market => "market",
        OrderType::StopMarket => "stopmarket",
        OrderType::StopLimit => "stoplimit",
        OrderType::TakeProfitMarket => "takeprofitmarket",
        OrderType::TakeProfitLimit => "takeprofitlimit",
    }
}

/// The name a status is stored under.
///
/// Written out rather than derived, because a rename of a variant would silently change what is
/// on disk and make every historical row unmatchable.
pub fn status_of(status: OrderStatus) -> (r: &'static str)
    ensures
        r@ == status_text(status),
{
    match status {
        OrderStatus::Pending => PENDING,
        OrderStatus::New => "new",
        OrderStatus::PartiallyFilled => "partially_filled",
        OrderStatus::Filled => "filled",
        OrderStatus::Canceled => "canceled",
        OrderStatus::Rejected => "rejected",
        OrderStatus::Expired => "expired",
    }
}

/// No two states are stored under one name, so what is on disk says which state it was; in
/// particular nothing the venue can report reads as pending.
pub proof fn names_tell_the_states_apart(a: OrderStatus, b: OrderStatus)
    requires
        status_text(a) == status_text(b),
    ensures
        a == b,
{
    reveal_strlit("pending");
    reveal_strlit("new");
    reveal_strlit("partially_filled");
    reveal_strlit("filled");
    reveal_strlit("canceled");
    reveal_strlit("rejected");
    reveal_strlit("expired");
    assert(PENDING@ == "pending"@);
    assert("pending"@.len() == 7 && "pending"@[0] == 'p');
    assert("new"@.len() == 3);
    assert("partially_filled"@.len() == 16);
    assert("filled"@.len() == 6);
    assert("canceled"@.len() == 8 && "canceled"@[0] == 'c');
    assert("rejected"@.len() == 8 && "rejected"@[0] == 'r');
    assert("expired"@.len() == 7 && "expired"@[0] == 'e');
}

/// An amount as it is stored: its exact text.
pub open spec fn money(amount: Decimal) -> ValueView {
    ValueView::Text(decimal::decimal_text(amount.parts().0, amount.parts().1))
}

pub open spec fn maybe_money(amount: Option<Decimal>) -> ValueView {
    match amount {
        Some(a) => money(a),
        None => ValueView::Null,
    }
}

fn money_value(amount: &Decimal) -> (v: Value)
    ensures
        v@ == money(*amount),
{
    Value::Text(amount.to_string())
}

fn maybe_money_value(amount: &Option<Decimal>) -> (v: Value)
    ensures
        v@ == maybe_money(*amount),
{
    match amount {
        Some(a) => money_value(a),
        None => Value::Null,
    }
}

fn text_value(s: &str) -> (v: Value)
    ensures
        v@ == ValueView::Text(s@),
{
    Value::Text(s.to_owned())
}

/// The row an order is recorded in before it is sent.
pub open spec fn intent(order: NewOrder, core_uid: i64, now_ms: i64) -> Seq<ValueView> {
    seq![
        ValueView::Text(order.client_id.0@),
        ValueView::Null,
        ValueView::Null,
        ValueView::Int(core_uid as int),
        ValueView::Text(order.symbol.exchange.text()),
        ValueView::Text(order.symbol.market.text()),
        ValueView::Text(order.symbol.raw@),
        ValueView::Text(side_text(order.side)),
        ValueView::Text(type_text(order.order_type)),
        ValueView::Text(PENDING@),
        money(order.qty),
        ValueView::Text("0"@),
        maybe_money(order.price),
        maybe_money(order.trigger_price),
        ValueView::Text("0"@),
        ValueView::Int(if order.reduce_only { 1 } else { 0 }),
        ValueView::Int(now_ms as int),
        ValueView::Int(now_ms as int),
        ValueView::Int(0),
    ]
}

/// Every column of an order that is recorded before it is sent holds what it is named for: nothing
/// is filled yet, no venue knows of it, and it is pending.
pub proof fn an_intent_is_in_its_columns(order: NewOrder, core_uid: i64, now_ms: i64)
    ensures
        ({
            let row = intent(order, core_uid, now_ms);
            let (client_id, deal_id, venue_id, core) = (row[0], row[1], row[2], row[3]);
            let (exchange, market, symbol, side) = (row[4], row[5], row[6], row[7]);
            let (order_type, status, qty, filled_qty) = (row[8], row[9], row[10], row[11]);
            let (price, trigger_price, avg_price, reduce_only) = (row[12], row[13], row[14], row[15]);
            let (created_at, updated_at, rev) = (row[16], row[17], row[18]);
            &&& row.len() == 19
            &&& client_id == ValueView::Text(order.client_id.0@)
            &&& deal_id is Null && venue_id is Null
            &&& core == ValueView::Int(core_uid as int)
            &&& exchange == ValueView::Text(order.symbol.exchange.text())
            &&& market == ValueView::Text(order.symbol.market.text())
            &&& symbol == ValueView::Text(order.symbol.raw@)
            &&& side == ValueView::Text(
                if order.side is Buy {
                    "buy"@
                } else {
                    "sell"@
                },
            )
            &&& order_type == ValueView::Text(
                match order.order_type {
                    OrderType::Limit => "limit"@,
                    OrderType::Market => "market"@,
                    OrderType::StopMarket => "stopmarket"@,
                    OrderType::StopLimit => "stoplimit"@,
                    OrderType::TakeProfitMarket => "takeprofitmarket"@,
                    OrderType::TakeProfitLimit => "takeprofitlimit"@,
                },
            )
            &&& status == ValueView::Text("pending"@)
            &&& qty == ValueView::Text(
                decimal::decimal_text(order.qty.parts().0, order.qty.parts().1),
            )
            &&& filled_qty == ValueView::Text("0"@) && avg_price == ValueView::Text("0"@)
            &&& order.price is None ==> price is Null
            &&& order.price matches Some(p) ==> price == ValueView::Text(
                decimal::decimal_text(p.parts().0, p.parts().1),
            )
            &&& order.trigger_price is None ==> trigger_price is Null
            &&& order.trigger_price matches Some(p) ==> trigger_price == ValueView::Text(
                decimal::decimal_text(p.parts().0, p.parts().1),
            )
            &&& order.reduce_only ==> reduce_only == ValueView::Int(1)
            &&& !order.reduce_only ==> reduce_only == ValueView::Int(0)
            &&& created_at == ValueView::Int(now_ms as int)
            &&& updated_at == ValueView::Int(now_ms as int)
            &&& rev == ValueView::Int(0)
        }),
{
}

/// An order as `pending`, to be on disk before the request goes to the venue.
pub fn record_intent(order: &NewOrder, core_uid: i64, now_ms: i64) -> (w: Write)
    ensures
        w@ == (WriteView { sql: sql::INSERT_ORDER@, params: intent(*order, core_uid, now_ms) }),
{
    let params = vec![
        Value::Text(order.client_id.0.clone()),
        Value::Null,
        Value::Null,
        Value::Int(core_uid),
        text_value(order.symbol.exchange.as_str()),
        text_value(order.symbol.market.as_str()),
        Value::Text(order.symbol.raw.clone()),
        text_value(side_of(order.side)),
        text_value(type_of(order.order_type)),
        text_value(PENDING),
        money_value(&order.qty),
        text_value("0"),
        maybe_money_value(&order.price),
        maybe_money_value(&order.trigger_price),
        text_value("0"),
        Value::Int(if order.reduce_only { 1 } else { 0 }),
        Value::Int(now_ms),
        Value::Int(now_ms),
        Value::Int(0),
    ];
    assert(params@.map_values(|v: Value| v@) =~= intent(*order, core_uid, now_ms));
    Write::new(sql::INSERT_ORDER, params)
}

/// What the venue answered, as it is recorded.
pub open spec fn answer(order: Order, now_ms: i64) -> Seq<ValueView> {
    seq![
        ValueView::Text(order.client_id.0@),
        ValueView::Text(status_text(order.status)),
        match order.venue_id {
            Some(id) => ValueView::Text(id@),
            None => ValueView::Null,
        },
        money(order.filled_qty),
        money(order.avg_price),
        ValueView::Int(now_ms as int),
    ]
}

/// What the venue answered is in its columns: which order it is about, its state and the venue's
/// name for it, how much is filled and at what price.
pub proof fn an_answer_is_in_its_columns(order: Order, now_ms: i64)
    ensures
        ({
            let row = answer(order, now_ms);
            let (client_id, status, venue_id) = (row[0], row[1], row[2]);
            let (filled_qty, avg_price, updated_at) = (row[3], row[4], row[5]);
            &&& row.len() == 6
            &&& client_id == ValueView::Text(order.client_id.0@)
            &&& status == ValueView::Text(
                match order.status {
                    OrderStatus::Pending => "pending"@,
                    OrderStatus::New => "new"@,
                    OrderStatus::PartiallyFilled => "partially_filled"@,
                    OrderStatus::Filled => "filled"@,
                    OrderStatus::Canceled => "canceled"@,
                    OrderStatus::Rejected => "rejected"@,
                    OrderStatus::Expired => "expired"@,
                },
            )
            &&& order.venue_id is None ==> venue_id is Null
            &&& order.venue_id matches Some(id) ==> venue_id == ValueView::Text(id@)
            &&& filled_qty == ValueView::Text(
                decimal::decimal_text(order.filled_qty.parts().0, order.filled_qty.parts().1),
            )
            &&& avg_price == ValueView::Text(
                decimal::decimal_text(order.avg_price.parts().0, order.avg_price.parts().1),
            )
            &&& updated_at == ValueView::Int(now_ms as int)
        }),
{
}

/// The name of a type tells it apart.
pub proof fn names_tell_the_types_apart(a: OrderType, b: OrderType)
    requires
        type_text(a) == type_text(b),
    ensures
        a == b,
{
    reveal_strlit("limit");
    reveal_strlit("market");
    reveal_strlit("stopmarket");
    reveal_strlit("stoplimit");
    reveal_strlit("takeprofitmarket");
    reveal_strlit("takeprofitlimit");
    assert("limit"@.len() == 5);
    assert("market"@.len() == 6);
    assert("stopmarket"@.len() == 10);
    assert("stoplimit"@.len() == 9);
    assert("takeprofitmarket"@.len() == 16);
    assert("takeprofitlimit"@.len() == 15);
}

/// An order moved on, once the venue has answered.
pub fn record_update(order: &Order, now_ms: i64) -> (w: Write)
    ensures
        w@ == (WriteView { sql: sql::UPDATE_ORDER@, params: answer(*order, now_ms) }),
{
    let venue_id = match &order.venue_id {
        Some(id) => Value::Text(id.clone()),
        None => Value::Null,
    };
    let params = vec![
        Value::Text(order.client_id.0.clone()),
        text_value(status_of(order.status)),
        venue_id,
        money_value(&order.filled_qty),
        money_value(&order.avg_price),
        Value::Int(now_ms),
    ];
    assert(params@.map_values(|v: Value| v@) =~= answer(*order, now_ms));
    Write::new(sql::UPDATE_ORDER, params)
}

/// An order that the venue turned out never to have received. Only one that is still pending is
/// touched: a late answer must not close out an order that has been confirmed since.
pub fn record_never_placed(client_id: &str, now_ms: i64) -> (w: Write)
    ensures
        w@ == (WriteView {
            sql: sql::CLOSE_OUT_ORDER@,
            params: seq![ValueView::Text(client_id@), ValueView::Int(now_ms as int)],
        }),
{
    let params = vec![text_value(client_id), Value::Int(now_ms)];
    assert(params@.map_values(|v: Value| v@) =~= seq![
        ValueView::Text(client_id@),
        ValueView::Int(now_ms as int),
    ]);
    Write::new(sql::CLOSE_OUT_ORDER, params)
}

} // verus!

//! Orders and their state machine.
//!
//! Every order carries a client-generated id so a retry can never double-fill, and state only
//! ever moves forward, so an out-of-order venue message cannot resurrect a dead order.

use crate::decimal;
use crate::decimal::Decimal;
use crate::domain::ids::Symbol;
use crate::domain::time::Timestamp;
use vstd::prelude::*;

verus! {

#[derive(Clone, Copy, Debug, PartialEq, Eq, Hash, Structural)]
pub enum Side {
    Buy,
    Sell,
}

impl Side {
    pub open spec fn other(self) -> Side {
        match self {
            Side::Buy => Side::Sell,
            Side::Sell => Side::Buy,
        }
    }

    pub fn opposite(self) -> (r: Side)
        ensures
            r == self.other(),
            r != self,
    {
        match self {
            Side::Buy => Side::Sell,
            Side::Sell => Side::Buy,
        }
    }

    /// Signed multiplier for position maths: +1 to buy, -1 to sell.
    pub fn sign(self) -> (d: Decimal)
        ensures
            d.parts() == (if self == Side::Buy {
                1int
            } else {
                -1int
            }, 0int),
    {
        match self {
            Side::Buy => Decimal::one(),
            Side::Sell => Decimal::negative_one(),
        }
    }
}

#[derive(Clone, Copy, Debug, PartialEq, Eq, Hash, Structural)]
pub enum OrderType {
    Limit,
    Market,
    StopMarket,
    StopLimit,
    TakeProfitMarket,
    TakeProfitLimit,
}

impl OrderType {
    pub fn needs_price(self) -> (r: bool)
        ensures
            r == (self is Limit || self is StopLimit || self is TakeProfitLimit),
    {
        match self {
            OrderType::Limit => true,
            OrderType::StopLimit => true,
            OrderType::TakeProfitLimit => true,
            OrderType::Market => false,
            OrderType::StopMarket => false,
            OrderType::TakeProfitMarket => false,
        }
    }

    pub fn needs_trigger_price(self) -> (r: bool)
        ensures
            r == !(self is Limit || self is Market),
    {
        match self {
            OrderType::Limit => false,
            OrderType::Market => false,
            OrderType::StopMarket => true,
            OrderType::StopLimit => true,
            OrderType::TakeProfitMarket => true,
            OrderType::TakeProfitLimit => true,
        }
    }
}

#[derive(Clone, Copy, Debug, PartialEq, Eq, Hash, Structural)]
pub enum TimeInForce {
    /// Good till cancelled.
    Gtc,
    /// Immediate or cancel.
    Ioc,
    /// Fill or kill.
    Fok,
    /// Post only: rejected rather than taking liquidity.
    PostOnly,
}

impl Default for TimeInForce {
    fn default() -> (r: Self)
        ensures
            r == TimeInForce::Gtc,
    {
        TimeInForce::Gtc
    }
}

/// Which leg of a hedged position an order applies to.
///
/// `Both` is one-way mode, where a single net position is held per instrument.
#[derive(Clone, Copy, Debug, PartialEq, Eq, Hash, Structural)]
pub enum PositionSide {
    Both,
    Long,
    Short,
}

impl Default for PositionSide {
    fn default() -> (r: Self)
        ensures
            r == PositionSide::Both,
    {
        PositionSide::Both
    }
}

#[derive(Clone, Copy, Debug, PartialEq, Eq, Hash, Structural)]
pub enum OrderStatus {
    /// Handed to the connector, no venue acknowledgement yet. Local-only state: an order that
    /// dies here may still be live on the venue and must be reconciled at startup.
    Pending,
    New,
    PartiallyFilled,
    Filled,
    Canceled,
    Rejected,
    Expired,
}

impl OrderStatus {
    pub open spec fn terminal(self) -> bool {
        self is Filled || self is Canceled || self is Rejected || self is Expired
    }

    /// How far along its life an order in this state is.
    pub open spec fn stage(self) -> int {
        match self {
            OrderStatus::Pending => 0,
            OrderStatus::New => 1,
            OrderStatus::PartiallyFilled => 2,
            _ => 3,
        }
    }

    /// The legal successors: a later stage, or another partial fill after a partial fill.
    pub open spec fn precedes(self, next: OrderStatus) -> bool {
        &&& !self.terminal()
        &&& self.stage() < next.stage() || (self is PartiallyFilled && next is PartiallyFilled)
    }

    /// Terminal states never change again, so they can be archived out of the hot map.
    pub fn is_terminal(self) -> (r: bool)
        ensures
            r == self.terminal(),
    {
        match self {
            OrderStatus::Filled => true,
            OrderStatus::Canceled => true,
            OrderStatus::Rejected => true,
            OrderStatus::Expired => true,
            OrderStatus::Pending => false,
            OrderStatus::New => false,
            OrderStatus::PartiallyFilled => false,
        }
    }

    pub fn is_open(self) -> (r: bool)
        ensures
            r == !self.terminal(),
    {
        match self {
            OrderStatus::Pending => true,
            OrderStatus::New => true,
            OrderStatus::PartiallyFilled => true,
            OrderStatus::Filled => false,
            OrderStatus::Canceled => false,
            OrderStatus::Rejected => false,
            OrderStatus::Expired => false,
        }
    }

    /// Rank used to reject out-of-order venue updates.
    fn rank(self) -> (r: u8)
        ensures
            r == self.stage(),
    {
        match self {
            OrderStatus::Pending => 0,
            OrderStatus::New => 1,
            OrderStatus::PartiallyFilled => 2,
            OrderStatus::Filled => 3,
            OrderStatus::Canceled => 3,
            OrderStatus::Rejected => 3,
            OrderStatus::Expired => 3,
        }
    }

    /// Whether `next` is a legal successor.
    ///
    /// Venues deliver updates out of order after a reconnect; without this guard a stale `New`
    /// arriving after a `Filled` would reopen a closed order.
    pub fn can_advance_to(self, next: OrderStatus) -> (r: bool)
        ensures
            r == self.precedes(next),
    {
        if self.is_terminal() {
            return false;
        }
        next.rank() > self.rank() || (next.rank() == self.rank() && next.rank() == 2)
    }
}

/// An order that is not yet acknowledged may become anything else; an acknowledged one may be
/// filled in part or end; one that is filled in part may be filled further or end; and one that has
/// ended stays as it is.
pub proof fn what_may_follow(status: OrderStatus, next: OrderStatus)
    ensures
        status.precedes(next) <==> match status {
            OrderStatus::Pending => !(next is Pending),
            OrderStatus::New => !(next is Pending) && !(next is New),
            OrderStatus::PartiallyFilled => !(next is Pending) && !(next is New),
            OrderStatus::Filled => false,
            OrderStatus::Canceled => false,
            OrderStatus::Rejected => false,
            OrderStatus::Expired => false,
        },
        status.terminal() <==> forall|later: OrderStatus| !#[trigger] status.precedes(later),
{
    if !status.terminal() {
        assert(status.precedes(OrderStatus::Filled));
    }
}

/// Whether each state of a history is a legal successor of the one before it.
pub open spec fn legal_history(states: Seq<OrderStatus>) -> bool {
    forall|i: int| 0 <= i < states.len() - 1 ==> (#[trigger] states[i]).precedes(states[i + 1])
}

/// Along a legal history the stage never falls, whichever two moments are compared.
pub proof fn state_never_moves_back(states: Seq<OrderStatus>, i: int, j: int)
    requires
        legal_history(states),
        0 <= i <= j < states.len(),
    ensures
        states[i].stage() <= states[j].stage(),
    decreases j - i,
{
    if i < j {
        state_never_moves_back(states, i, j - 1);
        assert(states[j - 1].precedes(states[j - 1 + 1]));
    }
}

/// A terminal state is the last of any legal history: nothing reopens a closed order.
pub proof fn terminal_state_is_last(states: Seq<OrderStatus>, i: int)
    requires
        legal_history(states),
        0 <= i < states.len(),
        states[i].terminal(),
    ensures
        i == states.len() - 1,
{
    if i < states.len() - 1 {
        assert(states[i].precedes(states[i + 1]));
    }
}

/// Client-generated order id, unique per core instance.
///
/// Sent to the venue so a retried placement is deduplicated on their side rather than
/// producing a second position.
#[derive(Clone, Debug, PartialEq, Eq, PartialOrd, Ord, Hash)]
pub struct ClientOrderId(pub String);

impl ClientOrderId {
    pub fn to_string(&self) -> (r: String)
        ensures
            r@ == self.0@,
    {
        self.0.clone()
    }
}

/// An order request, before the venue has seen it.
#[derive(Clone, Debug, PartialEq, Eq)]
pub struct NewOrder {
    pub client_id: ClientOrderId,
    pub symbol: Symbol,
    pub side: Side,
    pub order_type: OrderType,
    pub qty: Decimal,
    /// Required when [`OrderType::needs_price`].
    pub price: Option<Decimal>,
    /// Required when [`OrderType::needs_trigger_price`].
    pub trigger_price: Option<Decimal>,
    pub tif: TimeInForce,
    pub position_side: PositionSide,
    /// Derivatives only: the order may only shrink an existing position.
    pub reduce_only: bool,
}

/// A live or historical order as the core understands it.
#[derive(Clone, Debug, PartialEq, Eq)]
pub struct Order {
    pub client_id: ClientOrderId,
    /// Venue id, absent until the venue acknowledges the order.
    pub venue_id: Option<String>,
    pub symbol: Symbol,
    pub side: Side,
    pub order_type: OrderType,
    pub status: OrderStatus,
    pub qty: Decimal,
    pub filled_qty: Decimal,
    pub price: Option<Decimal>,
    pub trigger_price: Option<Decimal>,
    /// Volume-weighted average fill price; zero until the first fill.
    pub avg_price: Decimal,
    pub tif: TimeInForce,
    pub position_side: PositionSide,
    pub reduce_only: bool,
    pub created_at: Timestamp,
    pub updated_at: Timestamp,
}

impl Order {
    /// Quantity still working on the venue, never negative: venues occasionally report a
    /// filled quantity a hair above the order size.
    pub fn remaining_qty(&self) -> (d: Decimal)
        requires
            decimal::in_range(self.qty@ - self.filled_qty@),
        ensures
            d@ >= 0,
            decimal::difference_of(self.qty.parts(), self.filled_qty.parts()) matches Some(rest)
                && d.parts() == (if decimal::units(rest.0, rest.1) < 0 {
                (0int, 0int)
            } else {
                rest
            }),
            decimal::sum_is_exact(self.qty.parts(), decimal::negated(self.filled_qty.parts()))
                ==> d@ == if self.filled_qty@ <= self.qty@ {
                self.qty@ - self.filled_qty@
            } else {
                0
            },
    {
        let rest = self.qty.minus(self.filled_qty);
        proof {
            decimal::lemma_units_sign(0, 0);
        }
        rest.max(Decimal::zero())
    }

    pub fn is_open(&self) -> (r: bool)
        ensures
            r == !self.status.terminal(),
    {
        self.status.is_open()
    }
}

/// A single execution against an order.
#[derive(Clone, Debug, PartialEq, Eq)]
pub struct Fill {
    pub client_id: ClientOrderId,
    pub symbol: Symbol,
    /// Venue execution id, used to drop duplicates replayed after a reconnect.
    pub trade_id: String,
    pub side: Side,
    pub price: Decimal,
    pub qty: Decimal,
    pub fee: Decimal,
    pub fee_asset: String,
    /// True when the fill added liquidity.
    pub is_maker: bool,
    pub ts: Timestamp,
}

} // verus!

//! Account state: balances on every market, positions on derivatives only.

use crate::decimal;
use crate::decimal::Decimal;
use crate::domain::ids::Symbol;
use crate::domain::order::PositionSide;
use crate::domain::time::Timestamp;
use vstd::prelude::*;

verus! {

#[derive(Clone, Debug, PartialEq, Eq)]
pub struct Balance {
    pub asset: String,
    /// Available to trade.
    pub free: Decimal,
    /// Reserved by working orders or posted as margin.
    pub locked: Decimal,
}

impl Balance {
    pub fn total(&self) -> (d: Decimal)
        requires
            decimal::in_range(self.free@ + self.locked@),
        ensures
            decimal::sum_of(self.free.parts(), self.locked.parts()) == Some(d.parts()),
            decimal::sum_is_exact(self.free.parts(), self.locked.parts()) ==> d@ == self.free@
                + self.locked@,
    {
        self.free.plus(self.locked)
    }
}

#[derive(Clone, Copy, Debug, PartialEq, Eq, Structural)]
pub enum MarginMode {
    Cross,
    Isolated,
}

impl Default for MarginMode {
    fn default() -> (r: Self)
        ensures
            r == MarginMode::Cross,
    {
        MarginMode::Cross
    }
}

/// An open derivatives position.
///
/// `qty` is always non-negative; direction lives in `side`. Netting maths uses
/// [`crate::domain::order::Side::sign`] rather than a signed quantity, so the sign convention
/// is stated in exactly one place.
#[derive(Clone, Debug, PartialEq, Eq)]
pub struct Position {
    pub symbol: Symbol,
    /// `Both` in one-way mode; `Long`/`Short` when the account is hedged.
    pub side: PositionSide,
    pub qty: Decimal,
    pub entry_price: Decimal,
    /// Venue mark price, the basis for unrealised PnL and liquidation.
    pub mark_price: Decimal,
    pub unrealized_pnl: Decimal,
    pub leverage: Decimal,
    pub margin_mode: MarginMode,
    /// Absent when the venue does not publish one, or the position is flat.
    pub liquidation_price: Option<Decimal>,
    pub updated_at: Timestamp,
}

impl Position {
    pub fn is_flat(&self) -> (r: bool)
        ensures
            r == (self.qty@ == 0),
    {
        self.qty.is_zero()
    }

    /// Position value at the mark, in quote currency. A flat position has none.
    pub fn notional(&self) -> (d: Decimal)
        requires
            decimal::product_in_range(self.qty@, self.mark_price@),
        ensures
            decimal::product_of(self.qty.parts(), self.mark_price.parts()) == Some(d.parts()),
            self.qty@ == 0 ==> d@ == 0,
            forall|v: int|
                #![trigger decimal::representable(v)]
                decimal::representable(v) && v * decimal::one() == self.qty@ * self.mark_price@
                    ==> d@ == v,
    {
        proof {
            decimal::lemma_units_sign(0, 0);
        }
        self.qty.times(self.mark_price)
    }
}

} // verus!

//! Instrument metadata and the rounding rules that come with it.
//!
//! Every venue rejects orders whose price is off the tick grid or whose quantity is off the
//! step grid. Rounding therefore belongs next to the instrument.

use crate::decimal;
use crate::decimal::Decimal;
use crate::domain::ids::Symbol;
use vstd::prelude::*;

verus! {

/// Static (slow-changing) description of a tradable instrument.
#[derive(Debug, PartialEq, Eq)]
pub struct Instrument {
    pub symbol: Symbol,
    /// Asset being traded, e.g. `BTC`.
    pub base: String,
    /// Asset the price is quoted in, e.g. `USDT`.
    pub quote: String,
    /// Asset that margin is posted in. Equals `quote` on spot and linear perps.
    pub margin_asset: String,
    /// Minimum price increment.
    pub tick_size: Decimal,
    /// Minimum quantity increment.
    pub step_size: Decimal,
    pub min_qty: Decimal,
    /// Smallest `price * qty` the venue accepts. Zero when the venue imposes none.
    pub min_notional: Decimal,
    /// False while the venue has the instrument halted or delisted.
    pub trading: bool,
}

impl Clone for Instrument {
    fn clone(&self) -> (r: Self)
        ensures
            r == *self,
    {
        Instrument {
            symbol: self.symbol.clone(),
            base: self.base.clone(),
            quote: self.quote.clone(),
            margin_asset: self.margin_asset.clone(),
            tick_size: self.tick_size,
            step_size: self.step_size,
            min_qty: self.min_qty,
            min_notional: self.min_notional,
            trading: self.trading,
        }
    }
}

/// Why an order would be rejected by the venue before it is worth sending.
#[derive(Clone, Copy, Debug, PartialEq, Eq, Structural)]
pub enum OrderCheck {
    NotTrading,
    QtyBelowMin,
    QtyOffStep,
    PriceOffTick,
    NotionalBelowMin,
}

impl OrderCheck {
    pub open spec fn text(self) -> Seq<char> {
        match self {
            OrderCheck::NotTrading => "instrument is not trading"@,
            OrderCheck::QtyBelowMin => "quantity is below the venue minimum"@,
            OrderCheck::QtyOffStep => "quantity is not a multiple of the step size"@,
            OrderCheck::PriceOffTick => "price is not a multiple of the tick size"@,
            OrderCheck::NotionalBelowMin => "price * qty is below the venue minimum notional"@,
        }
    }

    pub fn to_string(&self) -> (r: String)
        ensures
            r@ == self.text(),
    {
        let t = match self {
            OrderCheck::NotTrading => "instrument is not trading",
            OrderCheck::QtyBelowMin => "quantity is below the venue minimum",
            OrderCheck::QtyOffStep => "quantity is not a multiple of the step size",
            OrderCheck::PriceOffTick => "price is not a multiple of the tick size",
            OrderCheck::NotionalBelowMin => "price * qty is below the venue minimum notional",
        };
        t.to_owned()
    }
}

/// Rounding `value` to `grid` stays within the range of decimals.
pub open spec fn can_round(value: int, grid: int) -> bool {
    grid != 0 ==> decimal::quotient_in_range(value, grid)
}

/// What rounding `value` to `grid` gives: as many whole increments as there are in the value, never
/// further from zero than the value itself.
pub open spec fn rounds_to(value: Decimal, grid: Decimal, d: Decimal) -> bool {
    let k = decimal::steps(value@, grid@);
    if grid@ == 0 {
        d == value
    } else {
        &&& decimal::product_of((k, 0int), grid.parts()) == Some(d.parts())
        &&& decimal::representable(k * grid@) ==> d@ == k * grid@
        &&& decimal::abs(d@) <= decimal::abs(value@)
        &&& value@ >= 0 ==> d@ >= 0
        &&& value@ <= 0 ==> d@ <= 0
        &&& decimal::whole_number_of(value@, grid@) ==> d@ == value@
    }
}

/// A rounded price or quantity never exceeds what was asked for: it lies between zero and the
/// value.
pub proof fn rounding_never_exceeds_intent(value: Decimal, grid: Decimal, d: Decimal)
    requires
        rounds_to(value, grid, d),
    ensures
        decimal::abs(d@) <= decimal::abs(value@),
        value@ >= 0 ==> d@ >= 0,
        value@ <= 0 ==> d@ <= 0,
{
}

/// What has been rounded is on the grid, less than one increment away, so the venue takes it: this
/// leaves out a multiple of the grid that needs more digits than a decimal has.
pub proof fn what_is_rounded_is_on_the_grid(value: Decimal, grid: Decimal, d: Decimal)
    requires
        rounds_to(value, grid, d),
        grid@ != 0,
        decimal::representable(decimal::steps(value@, grid@) * grid@),
    ensures
        decimal::whole_number_of(d@, grid@),
        decimal::abs(value@ - d@) < decimal::abs(grid@),
{
    decimal::lemma_steps(value@, grid@);
}

/// Rounding what has been rounded changes nothing: this leaves out a multiple of the grid that needs
/// more digits than a decimal has.
pub proof fn rounding_twice_is_rounding_once(
    value: Decimal,
    grid: Decimal,
    once: Decimal,
    twice: Decimal,
)
    requires
        rounds_to(value, grid, once),
        rounds_to(once, grid, twice),
        grid@ != 0 ==> decimal::representable(decimal::steps(value@, grid@) * grid@),
    ensures
        twice@ == once@,
{
    if grid@ != 0 {
        what_is_rounded_is_on_the_grid(value, grid, once);
    }
}

/// An order passes only where it keeps every rule: the instrument trades, the quantity is no less
/// than the minimum and a multiple of the step, the price is a multiple of the tick, and what they
/// come to is no less than the minimum notional, where there is one.
pub proof fn what_passes_keeps_every_rule(i: Instrument, price: int, qty: int, notional: int)
    requires
        i.verdict(price, qty, notional) is Ok,
    ensures
        i.trading,
        qty >= i.min_qty@,
        i.step_size@ != 0 ==> exists|k: int| qty == #[trigger] (k * i.step_size@),
        i.tick_size@ != 0 ==> exists|k: int| price == #[trigger] (k * i.tick_size@),
        i.min_notional@ != 0 ==> notional >= i.min_notional@,
{
}

/// An order that keeps every rule passes.
pub proof fn what_keeps_every_rule_passes(
    i: Instrument,
    price: int,
    qty: int,
    notional: int,
    steps: int,
    ticks: int,
)
    requires
        i.trading,
        qty >= i.min_qty@,
        i.step_size@ != 0 ==> qty == steps * i.step_size@,
        i.tick_size@ != 0 ==> price == ticks * i.tick_size@,
        i.min_notional@ != 0 ==> notional >= i.min_notional@,
    ensures
        i.verdict(price, qty, notional) is Ok,
{
}

/// An order is turned down only for a rule that it breaks, and for the first of them.
pub proof fn a_refusal_names_a_broken_rule(
    i: Instrument,
    price: int,
    qty: int,
    notional: int,
    n: int,
)
    requires
        i.verdict(price, qty, notional) is Err,
    ensures
        match i.verdict(price, qty, notional)->Err_0 {
            OrderCheck::NotTrading => !i.trading,
            OrderCheck::QtyBelowMin => i.trading && qty < i.min_qty@,
            OrderCheck::QtyOffStep => {
                &&& i.trading && qty >= i.min_qty@
                &&& i.step_size@ != 0 && qty != n * i.step_size@
            },
            OrderCheck::PriceOffTick => {
                &&& i.trading && qty >= i.min_qty@
                &&& i.step_size@ != 0 ==> exists|k: int| qty == #[trigger] (k * i.step_size@)
                &&& i.tick_size@ != 0 && price != n * i.tick_size@
            },
            OrderCheck::NotionalBelowMin => {
                &&& i.trading && qty >= i.min_qty@
                &&& i.step_size@ != 0 ==> exists|k: int| qty == #[trigger] (k * i.step_size@)
                &&& i.tick_size@ != 0 ==> exists|k: int| price == #[trigger] (k * i.tick_size@)
                &&& i.min_notional@ != 0 && notional < i.min_notional@
            },
        },
{
}

impl Instrument {
    /// Snap a price down to the tick grid.
    ///
    /// Always rounds toward zero so a rounded buy never ends up more aggressive than asked.
    pub fn round_price(&self, price: Decimal) -> (d: Decimal)
        requires
            can_round(price@, self.tick_size@),
        ensures
            rounds_to(price, self.tick_size, d),
    {
        round_to_grid(price, self.tick_size)
    }

    /// Snap a quantity down to the step grid, so the rounded order never exceeds intent.
    pub fn round_qty(&self, qty: Decimal) -> (d: Decimal)
        requires
            can_round(qty@, self.step_size@),
        ensures
            rounds_to(qty, self.step_size, d),
    {
        round_to_grid(qty, self.step_size)
    }

    /// The first of the venue's rules that an order breaks.
    ///
    /// `notional` is what the price times the quantity comes to.
    pub open spec fn verdict(&self, price: int, qty: int, notional: int) -> Result<(), OrderCheck> {
        if !self.trading {
            Err(OrderCheck::NotTrading)
        } else if qty < self.min_qty@ {
            Err(OrderCheck::QtyBelowMin)
        } else if self.step_size@ != 0 && !decimal::whole_number_of(qty, self.step_size@) {
            Err(OrderCheck::QtyOffStep)
        } else if self.tick_size@ != 0 && !decimal::whole_number_of(price, self.tick_size@) {
            Err(OrderCheck::PriceOffTick)
        } else if self.min_notional@ != 0 && notional < self.min_notional@ {
            Err(OrderCheck::NotionalBelowMin)
        } else {
            Ok(())
        }
    }

    /// Whether only the minimum notional is left to decide about an order.
    pub open spec fn notional_decides(&self, price: int, qty: int) -> bool {
        &&& self.trading
        &&& self.min_qty@ <= qty
        &&& self.step_size@ == 0 || decimal::whole_number_of(qty, self.step_size@)
        &&& self.tick_size@ == 0 || decimal::whole_number_of(price, self.tick_size@)
        &&& self.min_notional@ != 0
    }

    /// Reject locally what the venue would reject remotely.
    ///
    /// Cheaper than a round trip and, more importantly, keeps a rejected order out of the
    /// order-state machine entirely.
    pub fn check(&self, price: Decimal, qty: Decimal) -> (r: Result<(), OrderCheck>)
        requires
            self.notional_decides(price@, qty@) ==> decimal::product_in_range(price@, qty@),
        ensures
            r == self.verdict(
                price@,
                qty@,
                decimal::value_of(decimal::product_of(price.parts(), qty.parts())),
            ),
            forall|v: int|
                #![trigger decimal::representable(v)]
                decimal::representable(v) && v * decimal::one() == price@ * qty@ ==> r
                    == self.verdict(price@, qty@, v),
            r is Ok ==> {
                &&& self.trading
                &&& qty@ >= self.min_qty@
                &&& self.step_size@ != 0 ==> exists|k: int| qty@ == #[trigger] (k * self.step_size@)
                &&& self.tick_size@ != 0 ==> exists|k: int| price@ == #[trigger] (k * self.tick_size@)
                &&& self.min_notional@ != 0 ==> decimal::value_of(
                    decimal::product_of(price.parts(), qty.parts()),
                ) >= self.min_notional@
                &&& forall|v: int| #[trigger]
                    decimal::representable(v) && self.min_notional@ != 0 && v * decimal::one()
                        == price@ * qty@ ==> v >= self.min_notional@
            },
            r is Err ==> match r->Err_0 {
                OrderCheck::NotTrading => !self.trading,
                OrderCheck::QtyBelowMin => qty@ < self.min_qty@,
                OrderCheck::QtyOffStep => self.step_size@ != 0 && forall|k: int|
                    qty@ != #[trigger] (k * self.step_size@),
                OrderCheck::PriceOffTick => self.tick_size@ != 0 && forall|k: int|
                    price@ != #[trigger] (k * self.tick_size@),
                OrderCheck::NotionalBelowMin => price@ * qty@ < self.min_notional@
                    * decimal::one(),
            },
    {
        if !self.trading {
            return Err(OrderCheck::NotTrading);
        }
        if qty.less(self.min_qty) {
            return Err(OrderCheck::QtyBelowMin);
        }
        if !self.step_size.is_zero() && !qty.divides_evenly_by(self.step_size) {
            return Err(OrderCheck::QtyOffStep);
        }
        if !self.tick_size.is_zero() && !price.divides_evenly_by(self.tick_size) {
            return Err(OrderCheck::PriceOffTick);
        }
        if !self.min_notional.is_zero() && price.times(qty).less(self.min_notional) {
            return Err(OrderCheck::NotionalBelowMin);
        }
        Ok(())
    }
}

/// Round `value` toward zero to a multiple of `grid`. A zero grid means no constraint.
fn round_to_grid(value: Decimal, grid: Decimal) -> (d: Decimal)
    requires
        can_round(value@, grid@),
    ensures
        rounds_to(value, grid, d),
{
    if grid.is_zero() {
        return value;
    }
    let whole = value.whole_steps(grid);
    proof {
        let k = decimal::steps(value@, grid@);
        decimal::lemma_steps(value@, grid@);
        decimal::lemma_representable_in_range(value@);
        decimal::lemma_units_sign(0, 0);
        let u = decimal::one();
        decimal::lemma_pow10_positive(28);
        let p = k * grid@;
        let v = value@;
        assert((k * u) * grid@ == p * u) by (nonlinear_arith)
            requires
                p == k * grid@,
        ;
        assert(decimal::abs(p * u) <= decimal::max_units() * u) by (nonlinear_arith)
            requires
                decimal::abs(p) <= decimal::max_units(),
                u >= 1,
        ;
        assert(decimal::units(0, 0) == 0 && decimal::holds(0, 0));
        assert(decimal::representable(0));
        assert(p <= v ==> p * u <= v * u) by (nonlinear_arith)
            requires
                u >= 1,
        ;
        assert(p >= v ==> p * u >= v * u) by (nonlinear_arith)
            requires
                u >= 1,
        ;
        assert(p >= 0 ==> p * u >= 0 * u) by (nonlinear_arith)
            requires
                u >= 1,
        ;
        assert(p <= 0 ==> p * u <= 0 * u) by (nonlinear_arith)
            requires
                u >= 1,
        ;
    }
    whole.times(grid)
}

} // verus!

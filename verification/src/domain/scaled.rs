//! Prices and quantities as integers, for transport only.
//!
//! Money stays decimal everywhere it is reasoned about. Between the point a book delta is built
//! and the point it is displayed, a value travels as a whole number of its instrument's ticks.
//! A value that is no whole number of ticks is refused rather than rounded: rounding on purpose
//! is what [`Instrument::round_price`] is for, and it is a separate, deliberate call.

use crate::decimal;
use crate::decimal::Decimal;
use crate::domain::instrument;
use crate::domain::instrument::Instrument;
use vstd::prelude::*;

verus! {

/// A value expressed as a whole number of an instrument's ticks or steps.
///
/// Meaningless without the instrument it was scaled against, which is why it is a distinct
/// type.
#[derive(Clone, Copy, Debug, PartialEq, Eq, PartialOrd, Ord, Hash, Structural)]
pub struct Scaled(pub i64);

#[derive(Clone, Copy, Debug, PartialEq, Eq)]
pub enum ScaleError {
    OffGrid { value: Decimal, increment: Decimal },
    OutOfRange { value: Decimal, increment: Decimal },
    ZeroIncrement,
}

impl ScaleError {
    pub open spec fn text(self) -> Seq<char> {
        match self {
            ScaleError::OffGrid { value, increment } => decimal::decimal_text(
                value.parts().0,
                value.parts().1,
            ) + " is not a whole number of "@ + decimal::decimal_text(
                increment.parts().0,
                increment.parts().1,
            ) + " ticks"@,
            ScaleError::OutOfRange { value, increment } => decimal::decimal_text(
                value.parts().0,
                value.parts().1,
            ) + " scaled by "@ + decimal::decimal_text(increment.parts().0, increment.parts().1)
                + " does not fit in an i64"@,
            ScaleError::ZeroIncrement => "increment is zero, so nothing can be scaled by it"@,
        }
    }

    pub fn to_string(&self) -> (r: String)
        ensures
            r@ == self.text(),
    {
        match self {
            ScaleError::OffGrid { value, increment } => {
                let mut r = value.to_string();
                r.append(" is not a whole number of ");
                r.append(increment.to_string().as_str());
                r.append(" ticks");
                r
            },
            ScaleError::OutOfRange { value, increment } => {
                let mut r = value.to_string();
                r.append(" scaled by ");
                r.append(increment.to_string().as_str());
                r.append(" does not fit in an i64");
                r
            },
            ScaleError::ZeroIncrement => "increment is zero, so nothing can be scaled by it".to_owned(),
        }
    }
}

/// What scaling `value` by `increment` gives: a whole number of increments, where the value is one
/// and the number fits, and else why there is none.
pub open spec fn scales_to(
    value: Decimal,
    increment: Decimal,
    r: Result<Scaled, ScaleError>,
) -> bool {
    let k = decimal::steps(value@, increment@);
    r == if increment@ == 0 {
        Err(ScaleError::ZeroIncrement)
    } else if !decimal::whole_number_of(value@, increment@) {
        Err(ScaleError::OffGrid { value, increment })
    } else if i64::MIN <= k <= i64::MAX {
        Ok(Scaled(k as i64))
    } else {
        Err(ScaleError::OutOfRange { value, increment })
    }
}

/// What turning whole increments back into a decimal gives.
pub open spec fn unscales_to(scaled: Scaled, increment: Decimal, d: Decimal) -> bool {
    &&& decimal::product_of((scaled.0 as int, 0int), increment.parts()) == Some(d.parts())
    &&& decimal::representable(scaled.0 * increment@) ==> d@ == scaled.0 * increment@
}

/// A whole number of increments that fits always scales, and to that number.
pub proof fn on_grid_scales(
    value: Decimal,
    increment: Decimal,
    k: int,
    r: Result<Scaled, ScaleError>,
)
    requires
        increment@ != 0,
        value@ == k * increment@,
        i64::MIN <= k <= i64::MAX,
        scales_to(value, increment, r),
    ensures
        r == Ok::<Scaled, ScaleError>(Scaled(k as i64)),
{
    let j = decimal::steps(value@, increment@);
    let b = increment@;
    decimal::lemma_steps(value@, b);
    assert(decimal::whole_number_of(value@, b));
    assert(j == k) by (nonlinear_arith)
        requires
            b != 0,
            j * b == k * b,
    ;
}

/// Every value on the grid survives the round trip exactly: scaled to an integer and back, it
/// is the number it was.
pub proof fn grid_round_trip(
    value: Decimal,
    increment: Decimal,
    scaled: Scaled,
    back: Decimal,
)
    requires
        decimal::representable(value@),
        scales_to(value, increment, Ok(scaled)),
        unscales_to(scaled, increment, back),
    ensures
        back@ == value@,
{
    decimal::lemma_steps(value@, increment@);
}

/// A value off the grid is refused rather than rounded, and only such a value is.
pub proof fn off_grid_is_refused(value: Decimal, increment: Decimal, r: Result<Scaled, ScaleError>)
    requires
        increment@ != 0,
        scales_to(value, increment, r),
    ensures
        r is Err && r->Err_0 is OffGrid <==> !decimal::whole_number_of(value@, increment@),
        !decimal::whole_number_of(value@, increment@) ==> r == Err::<Scaled, ScaleError>(
            ScaleError::OffGrid { value, increment },
        ),
{
}

/// What cannot be scaled says why: nothing is a number of nothings, and a number of increments that
/// no sixty-four bits hold is refused as such.
pub proof fn what_does_not_fit_is_refused(
    value: Decimal,
    increment: Decimal,
    k: int,
    r: Result<Scaled, ScaleError>,
)
    requires
        scales_to(value, increment, r),
    ensures
        increment@ == 0 <==> r == Err::<Scaled, ScaleError>(ScaleError::ZeroIncrement),
        increment@ != 0 && value@ == k * increment@ && !(-0x8000_0000_0000_0000 <= k
            <= 0x7fff_ffff_ffff_ffff) ==> r == Err::<Scaled, ScaleError>(
            ScaleError::OutOfRange { value, increment },
        ),
        r matches Ok(scaled) ==> value@ == scaled.0 * increment@,
{
    if increment@ != 0 {
        let j = decimal::steps(value@, increment@);
        let b = increment@;
        decimal::lemma_steps(value@, b);
        if value@ == k * b {
            assert(decimal::whole_number_of(value@, b));
            assert(j == k) by (nonlinear_arith)
                requires
                    b != 0,
                    j * b == k * b,
            ;
        }
    }
}

/// What has been rounded to a grid scales by it, unless the number does not fit: this leaves out a
/// multiple of the grid that needs more digits than a decimal has.
pub proof fn what_is_rounded_scales(
    value: Decimal,
    increment: Decimal,
    rounded: Decimal,
    r: Result<Scaled, ScaleError>,
)
    requires
        increment@ != 0,
        instrument::rounds_to(value, increment, rounded),
        decimal::representable(decimal::steps(value@, increment@) * increment@),
        scales_to(rounded, increment, r),
    ensures
        match r {
            Ok(_) => true,
            Err(e) => e is OutOfRange,
        },
{
    instrument::what_is_rounded_is_on_the_grid(value, increment, rounded);
}

/// Convert a decimal into whole increments.
fn scale(value: Decimal, increment: Decimal) -> (r: Result<Scaled, ScaleError>)
    requires
        increment@ != 0 ==> decimal::quotient_in_range(value@, increment@),
    ensures
        scales_to(value, increment, r),
{
    if increment.is_zero() {
        return Err(ScaleError::ZeroIncrement);
    }
    if !value.divides_evenly_by(increment) {
        return Err(ScaleError::OffGrid { value, increment });
    }
    let quotient = value.over(increment);
    proof {
        lemma_whole_quotient(value@, increment@, quotient@);
    }
    match quotient.to_i64() {
        Some(k) => Ok(Scaled(k)),
        None => Err(ScaleError::OutOfRange { value, increment }),
    }
}

proof fn lemma_whole_quotient(a: int, b: int, q: int)
    requires
        b != 0,
        decimal::whole_number_of(a, b),
        forall|k: int| #[trigger] decimal::past_no_whole(k, a, b, q),
    ensures
        decimal::toward_zero(q, decimal::one()) == decimal::steps(a, b),
{
    let u = decimal::one();
    let k = decimal::steps(a, b);
    decimal::lemma_steps(a, b);
    assert(decimal::past_no_whole(k, a, b, q));
    decimal::lemma_pow10_positive(28);
    vstd::arithmetic::div_mod::lemma_div_multiples_vanish(decimal::abs(k), u);
    assert(u * decimal::abs(k) == decimal::abs(k) * u) by (nonlinear_arith);
    assert((-k) * u == -(k * u)) by (nonlinear_arith);
    assert(k >= 0 ==> k * u >= 0) by (nonlinear_arith)
        requires
            u >= 1,
    ;
    assert(k < 0 ==> k * u < 0) by (nonlinear_arith)
        requires
            u >= 1,
    ;
}

fn unscale(scaled: Scaled, increment: Decimal) -> (d: Decimal)
    requires
        decimal::in_range(scaled.0 * increment@),
    ensures
        unscales_to(scaled, increment, d),
{
    let whole = Decimal::from_i64(scaled.0);
    proof {
        let k = scaled.0 as int;
        let u = decimal::one();
        let b = increment@;
        decimal::lemma_pow10_positive(28);
        assert((k * u) * b == (k * b) * u) by (nonlinear_arith);
        let p = k * b;
        assert(decimal::abs(p * u) <= decimal::max_units() * u) by (nonlinear_arith)
            requires
                decimal::abs(p) <= decimal::max_units(),
                u >= 1,
        ;
    }
    whole.times(increment)
}

impl Instrument {
    /// A price as a whole number of ticks.
    pub fn scale_price(&self, price: Decimal) -> (r: Result<Scaled, ScaleError>)
        requires
            self.tick_size@ != 0 ==> decimal::quotient_in_range(price@, self.tick_size@),
        ensures
            scales_to(price, self.tick_size, r),
    {
        scale(price, self.tick_size)
    }

    /// Back to a decimal. Exact by construction: it is a multiplication by the same increment.
    pub fn unscale_price(&self, scaled: Scaled) -> (d: Decimal)
        requires
            decimal::in_range(scaled.0 * self.tick_size@),
        ensures
            unscales_to(scaled, self.tick_size, d),
    {
        unscale(scaled, self.tick_size)
    }

    /// A quantity as a whole number of steps.
    pub fn scale_qty(&self, qty: Decimal) -> (r: Result<Scaled, ScaleError>)
        requires
            self.step_size@ != 0 ==> decimal::quotient_in_range(qty@, self.step_size@),
        ensures
            scales_to(qty, self.step_size, r),
    {
        scale(qty, self.step_size)
    }

    pub fn unscale_qty(&self, scaled: Scaled) -> (d: Decimal)
        requires
            decimal::in_range(scaled.0 * self.step_size@),
        ensures
            unscales_to(scaled, self.step_size, d),
    {
        unscale(scaled, self.step_size)
    }
}

/// One book level on the wire: two integers, the price and then the quantity.
#[derive(Clone, Copy, Debug, PartialEq, Eq)]
pub struct ScaledLevel(pub (i64, i64));

impl ScaledLevel {
    pub fn new(price: Scaled, qty: Scaled) -> (r: ScaledLevel)
        ensures
            r == ScaledLevel((price.0, qty.0)),
    {
        ScaledLevel((price.0, qty.0))
    }

    pub fn price(self) -> (r: Scaled)
        ensures
            r == Scaled((self.0).0),
    {
        Scaled((self.0).0)
    }

    pub fn qty(self) -> (r: Scaled)
        ensures
            r == Scaled((self.0).1),
    {
        Scaled((self.0).1)
    }
}

} // verus!

//! Exact decimal numbers.
//!
//! A [`Decimal`] is a signed 96-bit integer divided by a power of ten of at most twenty-eight.
//! Prices and quantities live on decimal grids, so this is the one number type that money is
//! held in. The arithmetic itself is done by `rust_decimal`; what is stated of each operation
//! stands with the function that calls it. How many whole steps of a grid are in a number, and
//! whether anything remains, is found here, to the last digit.

use vstd::prelude::*;

verus! {

/// The largest magnitude a mantissa can have: 2^96 - 1.
pub const MAX_MANTISSA: i128 = 79228162514264337593543950335;

/// The most digits that can stand behind the decimal point.
pub const MAX_SCALE: u32 = 28;

/// Ten to the power `n`.
pub open spec fn pow10(n: int) -> int
    decreases n,
{
    if n <= 0 {
        1
    } else {
        10 * pow10(n - 1)
    }
}

/// How many units of 10^-28 make one whole.
pub open spec fn one() -> int {
    pow10(28)
}

/// The value of `mantissa / 10^scale`, counted in units of 10^-28.
///
/// Every decimal is a whole number of these units, so sums, differences and comparisons of
/// decimals are sums, differences and comparisons of integers.
pub open spec fn units(mantissa: int, scale: int) -> int {
    mantissa * pow10(28 - scale)
}

/// Whether a mantissa and a scale make a decimal.
pub open spec fn holds(mantissa: int, scale: int) -> bool {
    &&& -MAX_MANTISSA <= mantissa <= MAX_MANTISSA
    &&& 0 <= scale <= 28
}

/// The largest value a decimal can have, in units.
pub open spec fn max_units() -> int {
    MAX_MANTISSA * one()
}

/// Whether a value, in units, is within the range of decimals.
///
/// A value within the range need not be a decimal: it may need more digits than fit.
pub open spec fn in_range(value: int) -> bool {
    -max_units() <= value <= max_units()
}

/// Whether a value, in units, is exactly some decimal.
pub open spec fn representable(value: int) -> bool {
    exists|mantissa: int, scale: int| #[trigger]
        units(mantissa, scale) == value && holds(mantissa, scale)
}

pub open spec fn abs(value: int) -> int {
    if value < 0 {
        -value
    } else {
        value
    }
}

/// The integer quotient that drops the fraction, whatever the sign of `a`. `b` is positive.
pub open spec fn toward_zero(a: int, b: int) -> int {
    if a < 0 {
        -((-a) / b)
    } else {
        a / b
    }
}

/// How many whole `b`s are in `a`, the fraction dropped whatever the signs. `b` is not zero.
pub open spec fn steps(a: int, b: int) -> int {
    let n = abs(a) / abs(b);
    if (a < 0) == (b < 0) {
        n
    } else {
        -n
    }
}

/// Both mantissas brought to the larger of the two scales and added.
pub open spec fn aligned_sum(am: int, a_scale: int, bm: int, b_scale: int) -> int {
    if a_scale <= b_scale {
        am * pow10(b_scale - a_scale) + bm
    } else {
        am + bm * pow10(a_scale - b_scale)
    }
}

pub open spec fn larger(a: int, b: int) -> int {
    if a <= b {
        b
    } else {
        a
    }
}

/// An outside result as mathematical integers.
pub open spec fn parts_of(r: Option<(i128, u32)>) -> Option<(int, int)> {
    match r {
        Some((m, s)) => Some((m as int, s as int)),
        None => None,
    }
}

/// Whether an outside result, where there is one, is a decimal.
pub open spec fn sound(r: Option<(i128, u32)>) -> bool {
    r matches Some((m, s)) ==> holds(m as int, s as int)
}

/// The value of an outside result, in units. Meaningless where there is none.
pub open spec fn value_of(r: Option<(int, int)>) -> int {
    match r {
        Some((m, s)) => units(m, s),
        None => 0,
    }
}

/// What `rust_decimal` returns for the sum of two decimals.
pub uninterp spec fn decimal_sum(am: int, a_scale: int, bm: int, b_scale: int) -> Option<
    (int, int),
>;

/// What `rust_decimal` returns for the difference of two decimals.
pub uninterp spec fn decimal_difference(am: int, a_scale: int, bm: int, b_scale: int) -> Option<
    (int, int),
>;

/// What `rust_decimal` returns for the product of two decimals.
pub uninterp spec fn decimal_product(am: int, a_scale: int, bm: int, b_scale: int) -> Option<
    (int, int),
>;

/// What `rust_decimal` returns for the quotient of two decimals.
pub uninterp spec fn decimal_quotient(am: int, a_scale: int, bm: int, b_scale: int) -> Option<
    (int, int),
>;

/// What `rust_decimal` reads a text as, `None` where it is no number to it.
pub uninterp spec fn decimal_parsed(text: Seq<char>) -> Option<(int, int)>;

/// What `rust_decimal` reads a text in scientific notation as.
pub uninterp spec fn decimal_scientific(text: Seq<char>) -> Option<(int, int)>;

/// Calls `rust_decimal::Decimal::checked_add`.
///
/// Claimed: zero added to a number gives the number as it is; where both mantissas, brought to
/// the larger scale, add up to something that fits, that is the result at that scale; and
/// there is a result whenever the exact sum is within the range of decimals. Which digits are
/// kept when the aligned sum does not fit is left to the name.
#[verifier::external_body]
fn outside_sum(am: i128, a_scale: u32, bm: i128, b_scale: u32) -> (r: Option<(i128, u32)>)
    requires
        holds(am as int, a_scale as int),
        holds(bm as int, b_scale as int),
    ensures
        sound(r),
        parts_of(r) == decimal_sum(am as int, a_scale as int, bm as int, b_scale as int),
        am == 0 ==> r == Some((bm, b_scale)),
        am != 0 && bm == 0 ==> r == Some((am, a_scale)),
        am != 0 && bm != 0 && abs(
            aligned_sum(am as int, a_scale as int, bm as int, b_scale as int),
        ) <= MAX_MANTISSA ==> parts_of(r) == Some(
            (
                aligned_sum(am as int, a_scale as int, bm as int, b_scale as int),
                larger(a_scale as int, b_scale as int),
            ),
        ),
        in_range(units(am as int, a_scale as int) + units(bm as int, b_scale as int)) ==> r is Some,
{
    let a = rust_decimal::Decimal::from_i128_with_scale(am, a_scale);
    let b = rust_decimal::Decimal::from_i128_with_scale(bm, b_scale);
    match a.checked_add(b) {
        Some(d) => Some((d.mantissa(), d.scale())),
        None => None,
    }
}

/// Calls `rust_decimal::Decimal::checked_sub`.
///
/// Claimed: what is claimed of the sum, of the first number and the second with its sign
/// turned.
#[verifier::external_body]
fn outside_difference(am: i128, a_scale: u32, bm: i128, b_scale: u32) -> (r: Option<(i128, u32)>)
    requires
        holds(am as int, a_scale as int),
        holds(bm as int, b_scale as int),
    ensures
        sound(r),
        parts_of(r) == decimal_difference(am as int, a_scale as int, bm as int, b_scale as int),
        am == 0 ==> parts_of(r) == Some((-bm, b_scale as int)),
        am != 0 && bm == 0 ==> r == Some((am, a_scale)),
        am != 0 && bm != 0 && abs(
            aligned_sum(am as int, a_scale as int, -bm, b_scale as int),
        ) <= MAX_MANTISSA ==> parts_of(r) == Some(
            (
                aligned_sum(am as int, a_scale as int, -bm, b_scale as int),
                larger(a_scale as int, b_scale as int),
            ),
        ),
        in_range(units(am as int, a_scale as int) - units(bm as int, b_scale as int)) ==> r is Some,
{
    let a = rust_decimal::Decimal::from_i128_with_scale(am, a_scale);
    let b = rust_decimal::Decimal::from_i128_with_scale(bm, b_scale);
    match a.checked_sub(b) {
        Some(d) => Some((d.mantissa(), d.scale())),
        None => None,
    }
}

/// Calls `rust_decimal::Decimal::checked_mul`.
///
/// Claimed: a product with zero is zero at scale zero; where the product of the mantissas and
/// the sum of the scales fit, they are the result; there is a result whenever the exact product is
/// within the range of decimals; and rounding never carries a product past a decimal, because as
/// many digits are kept as fit and the rest is rounded to the nearest. Which of its two
/// neighbours a product that is no decimal becomes is left to the name.
#[verifier::external_body]
fn outside_product(am: i128, a_scale: u32, bm: i128, b_scale: u32) -> (r: Option<(i128, u32)>)
    requires
        holds(am as int, a_scale as int),
        holds(bm as int, b_scale as int),
    ensures
        sound(r),
        parts_of(r) == decimal_product(am as int, a_scale as int, bm as int, b_scale as int),
        am == 0 || bm == 0 ==> r == Some((0i128, 0u32)),
        am != 0 && bm != 0 && abs(am * bm) <= MAX_MANTISSA && a_scale + b_scale <= 28
            ==> parts_of(r) == Some((am * bm, a_scale + b_scale)),
        abs(units(am as int, a_scale as int) * units(bm as int, b_scale as int)) <= max_units()
            * one() ==> r is Some,
        forall|v: int|
            #![trigger representable(v)]
            r is Some && representable(v) ==> past_no_decimal(
                v,
                units(am as int, a_scale as int) * units(bm as int, b_scale as int),
                value_of(parts_of(r)),
            ),
{
    let a = rust_decimal::Decimal::from_i128_with_scale(am, a_scale);
    let b = rust_decimal::Decimal::from_i128_with_scale(bm, b_scale);
    match a.checked_mul(b) {
        Some(d) => Some((d.mantissa(), d.scale())),
        None => None,
    }
}

/// `q`, in units, is on the same side of the decimal `v` as the exact product, which is counted in
/// units of units.
pub open spec fn past_no_decimal(v: int, product: int, q: int) -> bool {
    &&& product >= v * one() ==> q >= v
    &&& product <= v * one() ==> q <= v
}

/// Calls `rust_decimal::Decimal::checked_div`.
///
/// Claimed: nothing is divided by zero; there is a result whenever the exact quotient is
/// within the range of decimals; a quotient that is exactly some decimal comes out as that
/// value; and rounding never carries a quotient past a whole number, because whole numbers
/// are themselves on the grid that is rounded to. How a quotient that is no decimal is
/// rounded is otherwise left to the name.
#[verifier::external_body]
fn outside_quotient(am: i128, a_scale: u32, bm: i128, b_scale: u32) -> (r: Option<(i128, u32)>)
    requires
        holds(am as int, a_scale as int),
        holds(bm as int, b_scale as int),
    ensures
        sound(r),
        parts_of(r) == decimal_quotient(am as int, a_scale as int, bm as int, b_scale as int),
        bm == 0 ==> r is None,
        bm != 0 && abs(units(am as int, a_scale as int)) <= MAX_MANTISSA * abs(
            units(bm as int, b_scale as int),
        ) ==> r is Some,
        forall|v: int|
            #![trigger representable(v)]
            bm != 0 && representable(v) && v * units(bm as int, b_scale as int) == units(
                am as int,
                a_scale as int,
            ) * one() ==> r is Some && value_of(parts_of(r)) == v,
        forall|k: int|
            r is Some ==> #[trigger] past_no_whole(
                k,
                units(am as int, a_scale as int),
                units(bm as int, b_scale as int),
                value_of(parts_of(r)),
            ),
{
    let a = rust_decimal::Decimal::from_i128_with_scale(am, a_scale);
    let b = rust_decimal::Decimal::from_i128_with_scale(bm, b_scale);
    match a.checked_div(b) {
        Some(d) => Some((d.mantissa(), d.scale())),
        None => None,
    }
}

/// `q`, in units, is on the same side of the whole number `k` as the exact quotient `a / b`.
pub open spec fn past_no_whole(k: int, a: int, b: int, q: int) -> bool {
    &&& b > 0 && a >= k * b ==> q >= k * one()
    &&& b > 0 && a <= k * b ==> q <= k * one()
    &&& b < 0 && a <= k * b ==> q >= k * one()
    &&& b < 0 && a >= k * b ==> q <= k * one()
}

/// Whether `a` is a whole number of `b`s.
pub open spec fn whole_number_of(a: int, b: int) -> bool {
    exists|k: int| a == #[trigger] (k * b)
}

/// Calls `<` of `rust_decimal::Decimal`, which compares by value.
#[verifier::external_body]
fn outside_less(am: i128, a_scale: u32, bm: i128, b_scale: u32) -> (r: bool)
    requires
        holds(am as int, a_scale as int),
        holds(bm as int, b_scale as int),
    ensures
        r == (units(am as int, a_scale as int) < units(bm as int, b_scale as int)),
{
    rust_decimal::Decimal::from_i128_with_scale(am, a_scale)
        < rust_decimal::Decimal::from_i128_with_scale(bm, b_scale)
}

/// Calls `rust_decimal::Decimal::round_dp_with_strategy` for no digits behind the point and
/// `RoundingStrategy::ToZero`, which drops the fraction.
#[verifier::external_body]
fn outside_round_to_zero(m: i128, scale: u32) -> (r: (i128, u32))
    requires
        holds(m as int, scale as int),
    ensures
        r.0 == toward_zero(m as int, pow10(scale as int)),
        r.1 == 0,
{
    let d = rust_decimal::Decimal::from_i128_with_scale(m, scale).round_dp_with_strategy(
        0,
        rust_decimal::RoundingStrategy::ToZero,
    );
    (d.mantissa(), d.scale())
}

/// Calls `to_i64` of `rust_decimal::Decimal`, which drops the fraction and gives nothing where
/// what is left does not fit.
#[verifier::external_body]
fn outside_to_i64(m: i128, scale: u32) -> (r: Option<i64>)
    requires
        holds(m as int, scale as int),
    ensures
        match r {
            Some(k) => k == toward_zero(m as int, pow10(scale as int)),
            None => !(i64::MIN <= toward_zero(m as int, pow10(scale as int)) <= i64::MAX),
        },
{
    rust_decimal::prelude::ToPrimitive::to_i64(
        &rust_decimal::Decimal::from_i128_with_scale(m, scale),
    )
}

/// Calls `rust_decimal::Decimal::normalize`, which drops the zeros at the end of the fraction.
#[verifier::external_body]
fn outside_normalize(m: i128, scale: u32) -> (r: (i128, u32))
    requires
        holds(m as int, scale as int),
    ensures
        holds(r.0 as int, r.1 as int),
        units(r.0 as int, r.1 as int) == units(m as int, scale as int),
        r.1 == 0 || r.0 as int % 10 != 0,
{
    let d = rust_decimal::Decimal::from_i128_with_scale(m, scale).normalize();
    (d.mantissa(), d.scale())
}

/// Calls `to_string` of `rust_decimal::Decimal`: a sign where the number is negative, the whole
/// part without leading zeros, and, where the scale is not zero, a point and exactly as many
/// digits as the scale says.
#[verifier::external_body]
fn outside_text(m: i128, scale: u32) -> (r: String)
    requires
        holds(m as int, scale as int),
    ensures
        r@ == decimal_text(m as int, scale as int),
{
    rust_decimal::Decimal::from_i128_with_scale(m, scale).to_string()
}

/// Formats a `rust_decimal::Decimal` with three digits behind the point: further digits are cut
/// off and not rounded, missing ones are zeros.
///
/// A number with more than twenty-eight digits before the point has no room for three behind it.
#[verifier::external_body]
fn outside_thousandths(m: i128, scale: u32) -> (r: String)
    requires
        holds(m as int, scale as int),
        has_room((m as int, scale as int)),
    ensures
        r@ == thousandths_text(m as int, scale as int),
{
    format!("{:.3}", rust_decimal::Decimal::from_i128_with_scale(m, scale))
}

/// Calls `from_str` of `rust_decimal::Decimal`.
///
/// Claimed: the text of a decimal is read back as that decimal. What other texts are read as
/// is left to the name.
#[verifier::external_body]
fn outside_parse(text: &str) -> (r: Option<(i128, u32)>)
    ensures
        sound(r),
        parts_of(r) == decimal_parsed(text@),
        forall|m: int, s: int|
            holds(m, s) && text@ == #[trigger] decimal_text(m, s) ==> parts_of(r) == Some((m, s)),
{
    match text.parse::<rust_decimal::Decimal>() {
        Ok(d) => Some((d.mantissa(), d.scale())),
        Err(_) => None,
    }
}

/// Calls `rust_decimal::Decimal::from_scientific`.
///
/// Claimed: a decimal comes out where anything does, and which one depends on the text alone.
#[verifier::external_body]
fn outside_scientific(text: &str) -> (r: Option<(i128, u32)>)
    ensures
        sound(r),
        parts_of(r) == decimal_scientific(text@),
{
    match rust_decimal::Decimal::from_scientific(text) {
        Ok(d) => Some((d.mantissa(), d.scale())),
        Err(_) => None,
    }
}

/// The character of a decimal digit.
pub open spec fn digit(d: int) -> char {
    (d + 48) as char
}

/// The last `n` decimal digits of `value`, zeros in front where it has fewer.
pub open spec fn padded(value: int, n: int) -> Seq<char>
    decreases n,
{
    if n <= 0 {
        Seq::empty()
    } else {
        padded(value / 10, n - 1).push(digit(value % 10))
    }
}

/// `value` in decimal digits, without leading zeros. `value` is not negative.
pub open spec fn digits(value: int) -> Seq<char>
    decreases value,
{
    if value < 10 {
        seq![digit(value)]
    } else {
        digits(value / 10).push(digit(value % 10))
    }
}

/// An integer as it is printed.
pub open spec fn integer_text(value: int) -> Seq<char> {
    if value < 0 {
        seq!['-'] + digits(-value)
    } else {
        digits(value)
    }
}

/// A decimal as it is printed.
pub open spec fn decimal_text(m: int, scale: int) -> Seq<char> {
    let sign = if m < 0 {
        seq!['-']
    } else {
        Seq::empty()
    };
    let whole = sign + digits(abs(m) / pow10(scale));
    if scale == 0 {
        whole
    } else {
        whole.push('.') + padded(abs(m) % pow10(scale), scale)
    }
}

/// Whether a number leaves room for three digits behind the point: no more than twenty-eight stand
/// before it.
pub open spec fn has_room(parts: (int, int)) -> bool {
    abs(parts.0) / pow10(parts.1) < pow10(28)
}

/// The thousandths of a number without its sign, further digits cut off.
pub open spec fn thousandths(m: int, scale: int) -> int {
    if scale >= 3 {
        abs(m) / pow10(scale - 3)
    } else {
        abs(m) * pow10(3 - scale)
    }
}

/// A decimal as it is printed with three digits behind the point.
pub open spec fn thousandths_text(m: int, scale: int) -> Seq<char> {
    let sign = if m < 0 {
        seq!['-']
    } else {
        Seq::empty()
    };
    let t = thousandths(m, scale);
    (sign + digits(t / 1000)).push('.') + padded(t % 1000, 3)
}

/// A decimal number.
#[derive(Clone, Copy, Debug)]
pub struct Decimal {
    mantissa: i128,
    scale: u32,
}

impl View for Decimal {
    type V = int;

    /// The value in units of 10^-28: two decimals are the same number exactly when their views
    /// are the same, whatever zeros stand at the end of either.
    open spec fn view(&self) -> int {
        units(self.parts().0, self.parts().1)
    }
}

/// What `rust_decimal` returns for a sum, a difference, a product and a quotient.
pub open spec fn sum_of(a: (int, int), b: (int, int)) -> Option<(int, int)> {
    decimal_sum(a.0, a.1, b.0, b.1)
}

pub open spec fn difference_of(a: (int, int), b: (int, int)) -> Option<(int, int)> {
    decimal_difference(a.0, a.1, b.0, b.1)
}

pub open spec fn product_of(a: (int, int), b: (int, int)) -> Option<(int, int)> {
    decimal_product(a.0, a.1, b.0, b.1)
}

pub open spec fn quotient_of(a: (int, int), b: (int, int)) -> Option<(int, int)> {
    decimal_quotient(a.0, a.1, b.0, b.1)
}

/// The exact product of two values, in units, is within the range of decimals.
pub open spec fn product_in_range(a: int, b: int) -> bool {
    abs(a * b) <= max_units() * one()
}

/// The exact quotient of two values, in units, is within the range of decimals.
pub open spec fn quotient_in_range(a: int, b: int) -> bool {
    abs(a) <= MAX_MANTISSA * abs(b)
}

/// Adding the two keeps every digit: one of them is zero, or the aligned sum fits.
pub open spec fn sum_is_exact(a: (int, int), b: (int, int)) -> bool {
    a.0 == 0 || b.0 == 0 || abs(aligned_sum(a.0, a.1, b.0, b.1)) <= MAX_MANTISSA
}

/// Multiplying the two keeps every digit: one of them is zero, or the product of the mantissas and
/// the sum of the scales fit.
pub open spec fn product_is_exact(a: (int, int), b: (int, int)) -> bool {
    a.0 == 0 || b.0 == 0 || (abs(a.0 * b.0) <= MAX_MANTISSA && a.1 + b.1 <= 28)
}

/// The product that keeps every digit: zero where one of them is zero, and else the product of the
/// mantissas at the sum of the scales.
pub open spec fn exact_product(a: (int, int), b: (int, int)) -> (int, int) {
    if a.0 == 0 || b.0 == 0 {
        (0, 0)
    } else {
        (a.0 * b.0, a.1 + b.1)
    }
}

/// The sum that keeps every digit: zero added to a number is that number as it is, and else both
/// mantissas are brought to the larger scale and added.
pub open spec fn exact_sum(a: (int, int), b: (int, int)) -> (int, int) {
    if a.0 == 0 {
        b
    } else if b.0 == 0 {
        a
    } else {
        (aligned_sum(a.0, a.1, b.0, b.1), larger(a.1, b.1))
    }
}

/// The running total of amounts, nothing where it leaves the range of decimals.
pub open spec fn running(amounts: Seq<(int, int)>) -> Option<(int, int)>
    decreases amounts.len(),
{
    if amounts.len() == 0 {
        Some((0, 0))
    } else {
        match running(amounts.drop_last()) {
            Some(total) => sum_of(total, amounts.last()),
            None => None,
        }
    }
}

/// The total of amounts with every digit kept.
pub open spec fn exact_total(amounts: Seq<(int, int)>) -> (int, int)
    decreases amounts.len(),
{
    if amounts.len() == 0 {
        (0, 0)
    } else {
        exact_sum(exact_total(amounts.drop_last()), amounts.last())
    }
}

/// Whether every digit can be kept on the way to the total.
pub open spec fn adds_up(amounts: Seq<(int, int)>) -> bool
    decreases amounts.len(),
{
    amounts.len() == 0 || (adds_up(amounts.drop_last()) && sum_is_exact(
        exact_total(amounts.drop_last()),
        amounts.last(),
    ))
}

/// The sum of amounts, in units.
pub open spec fn sum_units(amounts: Seq<(int, int)>) -> int
    decreases amounts.len(),
{
    if amounts.len() == 0 {
        0
    } else {
        sum_units(amounts.drop_last()) + units(amounts.last().0, amounts.last().1)
    }
}

/// A number without the zeros at the end of its fraction.
pub open spec fn trimmed(parts: (int, int)) -> (int, int)
    decreases parts.1,
{
    if parts.1 > 0 && parts.0 % 10 == 0 {
        trimmed((parts.0 / 10, parts.1 - 1))
    } else {
        parts
    }
}

/// The decimal with a given mantissa and scale.
pub closed spec fn of_parts(parts: (int, int)) -> Decimal {
    Decimal { mantissa: parts.0 as i128, scale: parts.1 as u32 }
}

/// A decimal is known by its mantissa and its scale.
pub proof fn lemma_of_parts(d: Decimal)
    ensures
        of_parts(d.parts()) == d,
{
}

/// The sum of two decimals, as a decimal. Meaningless where it is out of range.
pub open spec fn sum(a: Decimal, b: Decimal) -> Decimal {
    of_parts(sum_of(a.parts(), b.parts())->0)
}

/// The difference of two decimals, as a decimal. Meaningless where it is out of range.
pub open spec fn difference(a: Decimal, b: Decimal) -> Decimal {
    of_parts(difference_of(a.parts(), b.parts())->0)
}

/// The product of two decimals, as a decimal. Meaningless where it is out of range.
pub open spec fn product(a: Decimal, b: Decimal) -> Decimal {
    of_parts(product_of(a.parts(), b.parts())->0)
}

/// The other number with its sign turned.
pub open spec fn negated(a: (int, int)) -> (int, int) {
    (-a.0, a.1)
}

impl Decimal {
    #[verifier::type_invariant]
    spec fn well_formed(self) -> bool {
        holds(self.mantissa as int, self.scale as int)
    }

    /// The mantissa and the scale.
    pub closed spec fn parts(self) -> (int, int) {
        (self.mantissa as int, self.scale as int)
    }

    /// `num / 10^scale`.
    pub fn new(num: i64, scale: u32) -> (d: Decimal)
        requires
            scale <= 28,
        ensures
            d.parts() == (num as int, scale as int),
    {
        Decimal { mantissa: num as i128, scale }
    }

    pub fn zero() -> (d: Decimal)
        ensures
            d.parts() == (0int, 0int),
    {
        Decimal { mantissa: 0, scale: 0 }
    }

    pub fn one() -> (d: Decimal)
        ensures
            d.parts() == (1int, 0int),
    {
        Decimal { mantissa: 1, scale: 0 }
    }

    pub fn negative_one() -> (d: Decimal)
        ensures
            d.parts() == (-1int, 0int),
    {
        Decimal { mantissa: -1, scale: 0 }
    }

    pub fn two() -> (d: Decimal)
        ensures
            d.parts() == (2int, 0int),
    {
        Decimal { mantissa: 2, scale: 0 }
    }

    pub fn from_i64(num: i64) -> (d: Decimal)
        ensures
            d.parts() == (num as int, 0int),
    {
        Decimal { mantissa: num as i128, scale: 0 }
    }

    pub fn is_zero(&self) -> (r: bool)
        ensures
            r == (self.parts().0 == 0),
            r == (self@ == 0),
    {
        proof {
            lemma_units_sign(self.parts().0, self.parts().1);
        }
        self.mantissa == 0
    }

    /// The sum, or nothing where it is out of range.
    pub fn checked_add(self, other: Decimal) -> (r: Option<Decimal>)
        ensures
            match r {
                Some(d) => sum_of(self.parts(), other.parts()) == Some(d.parts()),
                None => sum_of(self.parts(), other.parts()) is None,
            },
            in_range(self@ + other@) ==> r is Some,
            sum_is_exact(self.parts(), other.parts()) ==> r is Some && r->0@ == self@ + other@
                && r->0.parts() == exact_sum(self.parts(), other.parts()),
            r matches Some(d) ==> representable(d@),
    {
        proof {
            use_type_invariant(&self);
            use_type_invariant(&other);
            lemma_aligned_sum(
                self.parts().0,
                self.parts().1,
                other.parts().0,
                other.parts().1,
            );
        }
        match outside_sum(self.mantissa, self.scale, other.mantissa, other.scale) {
            Some((mantissa, scale)) => {
                let d = Decimal { mantissa, scale };
                assert(units(mantissa as int, scale as int) == d@);
                Some(d)
            },
            None => None,
        }
    }

    /// The difference, or nothing where it is out of range.
    pub fn checked_sub(self, other: Decimal) -> (r: Option<Decimal>)
        ensures
            match r {
                Some(d) => difference_of(self.parts(), other.parts()) == Some(d.parts()),
                None => difference_of(self.parts(), other.parts()) is None,
            },
            in_range(self@ - other@) ==> r is Some,
            sum_is_exact(self.parts(), negated(other.parts())) ==> r is Some && r->0@ == self@
                - other@ && r->0.parts() == exact_sum(self.parts(), negated(other.parts())),
    {
        proof {
            use_type_invariant(&self);
            use_type_invariant(&other);
            lemma_aligned_sum(
                self.parts().0,
                self.parts().1,
                -other.parts().0,
                other.parts().1,
            );
            lemma_units_negated(other.parts().0, other.parts().1);
        }
        match outside_difference(self.mantissa, self.scale, other.mantissa, other.scale) {
            Some((mantissa, scale)) => Some(Decimal { mantissa, scale }),
            None => None,
        }
    }

    /// The product, or nothing where it is out of range.
    pub fn checked_mul(self, other: Decimal) -> (r: Option<Decimal>)
        ensures
            match r {
                Some(d) => product_of(self.parts(), other.parts()) == Some(d.parts()),
                None => product_of(self.parts(), other.parts()) is None,
            },
            product_in_range(self@, other@) ==> r is Some,
            product_is_exact(self.parts(), other.parts()) ==> r is Some && r->0.parts()
                == exact_product(self.parts(), other.parts()),
            self@ == 0 || other@ == 0 ==> r is Some && r->0.parts() == (0int, 0int),
            forall|v: int|
                #![trigger representable(v)]
                representable(v) && v * one() == self@ * other@ ==> r is Some && r->0@ == v,
            forall|v: int|
                #![trigger representable(v)]
                r is Some && representable(v) ==> past_no_decimal(v, self@ * other@, r->0@),
            r matches Some(d) ==> {
                &&& (self@ >= 0 && other@ >= 0) || (self@ <= 0 && other@ <= 0) ==> d@ >= 0
                &&& (self@ >= 0 && other@ <= 0) || (self@ <= 0 && other@ >= 0) ==> d@ <= 0
            },
    {
        proof {
            use_type_invariant(&self);
            use_type_invariant(&other);
            lemma_units_sign(self.parts().0, self.parts().1);
            lemma_units_sign(other.parts().0, other.parts().1);
            lemma_product_sign(self@, other@);
            lemma_decimal_product(self@ * other@);
        }
        let raw = outside_product(self.mantissa, self.scale, other.mantissa, other.scale);
        match raw {
            Some((mantissa, scale)) => {
                let d = Decimal { mantissa, scale };
                assert(value_of(parts_of(raw)) == d@);
                Some(d)
            },
            None => None,
        }
    }

    /// The quotient, or nothing where it is out of range or the divisor is zero.
    pub fn checked_div(self, other: Decimal) -> (r: Option<Decimal>)
        ensures
            match r {
                Some(d) => quotient_of(self.parts(), other.parts()) == Some(d.parts()),
                None => quotient_of(self.parts(), other.parts()) is None,
            },
            other@ == 0 ==> r is None,
            other@ != 0 && quotient_in_range(self@, other@) ==> r is Some,
            forall|v: int|
                #![trigger representable(v)]
                other@ != 0 && representable(v) && v * other@ == self@ * one() ==> r is Some
                    && r->0@ == v,
            forall|k: int| r is Some ==> #[trigger] past_no_whole(k, self@, other@, r->0@),
    {
        proof {
            use_type_invariant(&self);
            use_type_invariant(&other);
            lemma_units_sign(other.parts().0, other.parts().1);
        }
        let raw = outside_quotient(self.mantissa, self.scale, other.mantissa, other.scale);
        match raw {
            Some((mantissa, scale)) => {
                let d = Decimal { mantissa, scale };
                assert(value_of(parts_of(raw)) == d@);
                Some(d)
            },
            None => None,
        }
    }

    pub fn plus(self, other: Decimal) -> (d: Decimal)
        requires
            in_range(self@ + other@),
        ensures
            d == sum(self, other),
            sum_of(self.parts(), other.parts()) == Some(d.parts()),
            sum_is_exact(self.parts(), other.parts()) ==> d@ == self@ + other@ && d.parts()
                == exact_sum(self.parts(), other.parts()),
            representable(d@),
    {
        self.checked_add(other).unwrap()
    }

    pub fn minus(self, other: Decimal) -> (d: Decimal)
        requires
            in_range(self@ - other@),
        ensures
            d == difference(self, other),
            difference_of(self.parts(), other.parts()) == Some(d.parts()),
            sum_is_exact(self.parts(), negated(other.parts())) ==> d@ == self@ - other@ && d.parts()
                == exact_sum(self.parts(), negated(other.parts())),
    {
        self.checked_sub(other).unwrap()
    }

    pub fn times(self, other: Decimal) -> (d: Decimal)
        requires
            product_in_range(self@, other@),
        ensures
            d == product(self, other),
            product_of(self.parts(), other.parts()) == Some(d.parts()),
            product_is_exact(self.parts(), other.parts()) ==> d.parts() == exact_product(
                self.parts(),
                other.parts(),
            ),
            self@ == 0 || other@ == 0 ==> d.parts() == (0int, 0int),
            forall|v: int|
                #![trigger representable(v)]
                representable(v) && v * one() == self@ * other@ ==> d@ == v,
            forall|v: int|
                #![trigger representable(v)]
                representable(v) ==> past_no_decimal(v, self@ * other@, d@),
    {
        self.checked_mul(other).unwrap()
    }

    pub fn over(self, other: Decimal) -> (d: Decimal)
        requires
            other@ != 0,
            quotient_in_range(self@, other@),
        ensures
            quotient_of(self.parts(), other.parts()) == Some(d.parts()),
            forall|v: int|
                #![trigger representable(v)]
                representable(v) && v * other@ == self@ * one() ==> d@ == v,
            forall|k: int| #[trigger] past_no_whole(k, self@, other@, d@),
            representable(self@),
    {
        proof {
            use_type_invariant(&self);
        }
        assert(units(self.parts().0, self.parts().1) == self@);
        self.checked_div(other).unwrap()
    }

    /// How many whole `grid`s are in this, the fraction dropped.
    ///
    /// The quotient is rounded where it has more digits than fit, and may be rounded up to a whole
    /// number that the exact quotient does not reach. Then it is one less.
    pub fn whole_steps(self, grid: Decimal) -> (k: Decimal)
        requires
            grid@ != 0,
            quotient_in_range(self@, grid@),
        ensures
            k.parts() == (steps(self@, grid@), 0int),
            k@ == steps(self@, grid@) * one(),
            representable(self@),
    {
        proof {
            use_type_invariant(&self);
            use_type_invariant(&grid);
            lemma_units_sign(self.parts().0, self.parts().1);
            lemma_units_sign(grid.parts().0, grid.parts().1);
        }
        let quotient = self.over(grid);
        let whole = quotient.round_to_zero();
        proof {
            use_type_invariant(&whole);
            lemma_near(self@, grid@, quotient@);
        }
        let v = self.abs();
        let g = grid.abs();
        let n: i128 = if whole.mantissa < 0 {
            -whole.mantissa
        } else {
            whole.mantissa
        };
        let k: i128 = if n > 0 && multiple_exceeds(n, g.mantissa, g.scale, v.mantissa, v.scale) {
            if whole.mantissa < 0 {
                -(n - 1)
            } else {
                n - 1
            }
        } else {
            whole.mantissa
        };
        proof {
            assert(n * abs(grid@) == abs(grid@) * n) by (nonlinear_arith);
            lemma_steps_from(self@, grid@, whole.mantissa as int, k as int);
        }
        Decimal { mantissa: k, scale: 0 }
    }

    /// Whether this is a whole number of `other`s.
    pub fn divides_evenly_by(self, other: Decimal) -> (r: bool)
        requires
            other@ != 0,
        ensures
            r == whole_number_of(self@, other@),
    {
        proof {
            use_type_invariant(&self);
            use_type_invariant(&other);
            lemma_units_sign(other.parts().0, other.parts().1);
        }
        remainder_is_zero(self.mantissa, self.scale, other.mantissa, other.scale)
    }

    pub fn less(self, other: Decimal) -> (r: bool)
        ensures
            r == (self@ < other@),
            representable(self@),
            representable(other@),
    {
        proof {
            use_type_invariant(&self);
            use_type_invariant(&other);
            assert(units(self.parts().0, self.parts().1) == self@);
            assert(units(other.parts().0, other.parts().1) == other@);
        }
        outside_less(self.mantissa, self.scale, other.mantissa, other.scale)
    }

    pub fn equals(self, other: Decimal) -> (r: bool)
        ensures
            r == (self@ == other@),
    {
        !self.less(other) && !other.less(self)
    }

    /// The greater of the two, this one where they are the same number.
    pub fn max(self, other: Decimal) -> (d: Decimal)
        ensures
            d == greater_of(self, other),
    {
        if self.less(other) {
            other
        } else {
            self
        }
    }

    /// The lesser of the two, this one where they are the same number.
    pub fn min(self, other: Decimal) -> (d: Decimal)
        ensures
            d == lesser_of(self, other),
    {
        if other.less(self) {
            other
        } else {
            self
        }
    }

    /// The whole part, the fraction dropped.
    pub fn round_to_zero(self) -> (d: Decimal)
        ensures
            d.parts() == (toward_zero(self@, one()), 0int),
            d@ == toward_zero(self@, one()) * one(),
    {
        proof {
            use_type_invariant(&self);
            lemma_toward_zero(self.parts().0, self.parts().1);
        }
        let (mantissa, scale) = outside_round_to_zero(self.mantissa, self.scale);
        Decimal { mantissa, scale }
    }

    /// The whole part as an integer, nothing where it does not fit.
    pub fn to_i64(self) -> (r: Option<i64>)
        ensures
            match r {
                Some(k) => k == toward_zero(self@, one()),
                None => !(i64::MIN <= toward_zero(self@, one()) <= i64::MAX),
            },
    {
        proof {
            use_type_invariant(&self);
            lemma_toward_zero(self.parts().0, self.parts().1);
        }
        outside_to_i64(self.mantissa, self.scale)
    }

    /// The same number without zeros at the end of its fraction.
    pub fn normalize(self) -> (d: Decimal)
        ensures
            d@ == self@,
            d.parts() == trimmed(self.parts()),
    {
        proof {
            use_type_invariant(&self);
        }
        let (mantissa, scale) = outside_normalize(self.mantissa, self.scale);
        proof {
            lemma_trimmed(self.parts(), (mantissa as int, scale as int));
        }
        Decimal { mantissa, scale }
    }

    /// The number without its sign.
    pub fn abs(self) -> (d: Decimal)
        ensures
            d.parts() == (abs(self.parts().0), self.parts().1),
            d@ == abs(self@),
    {
        proof {
            use_type_invariant(&self);
            lemma_units_sign(self.parts().0, self.parts().1);
            lemma_units_negated(self.parts().0, self.parts().1);
        }
        if self.mantissa < 0 {
            Decimal { mantissa: -self.mantissa, scale: self.scale }
        } else {
            self
        }
    }

    /// Whether there is room for three digits behind the point.
    pub fn fits_thousandths(&self) -> (r: bool)
        ensures
            r == has_room(self.parts()),
    {
        proof {
            use_type_invariant(self);
            lemma_toward_zero(self.parts().0, self.parts().1);
            assert(pow10(28) == 10_000_000_000_000_000_000_000_000_000) by {
                reveal_with_fuel(pow10, 29);
            }
        }
        let whole = self.abs().round_to_zero();
        proof {
            let (m, s) = (abs(self.parts().0), self.parts().1);
            lemma_pow10_positive(s);
            lemma_toward_zero(m, s);
        }
        whole.mantissa < 10_000_000_000_000_000_000_000_000_000
    }

    /// The number with three digits behind the point.
    pub fn to_thousandths(&self) -> (text: String)
        requires
            has_room(self.parts()),
        ensures
            text@ == thousandths_text(self.parts().0, self.parts().1),
    {
        proof {
            use_type_invariant(self);
        }
        outside_thousandths(self.mantissa, self.scale)
    }

    pub fn to_string(&self) -> (text: String)
        ensures
            text@ == decimal_text(self.parts().0, self.parts().1),
    {
        proof {
            use_type_invariant(self);
        }
        outside_text(self.mantissa, self.scale)
    }

    /// The number a text holds, if it holds one.
    pub fn parse(text: &str) -> (r: Option<Decimal>)
        ensures
            match r {
                Some(d) => decimal_parsed(text@) == Some(d.parts()),
                None => decimal_parsed(text@) is None,
            },
            forall|d: Decimal|
                holds(d.parts().0, d.parts().1) && text@ == #[trigger] decimal_text(
                    d.parts().0,
                    d.parts().1,
                ) ==> r is Some && r->0.parts() == d.parts(),
    {
        match outside_parse(text) {
            Some((mantissa, scale)) => Some(Decimal { mantissa, scale }),
            None => None,
        }
    }

    /// The number a text holds, plain or in scientific notation.
    pub fn parse_any(text: &str) -> (r: Option<Decimal>)
        ensures
            match r {
                Some(d) => any_parsed(text@) == Some(d.parts()),
                None => any_parsed(text@) is None,
            },
    {
        match outside_parse(text) {
            Some((mantissa, scale)) => Some(Decimal { mantissa, scale }),
            None => match outside_scientific(text) {
                Some((mantissa, scale)) => Some(Decimal { mantissa, scale }),
                None => None,
            },
        }
    }
}

/// Whether one number is a whole number of another, to the last digit.
fn remainder_is_zero(am: i128, a_scale: u32, bm: i128, b_scale: u32) -> (r: bool)
    requires
        holds(am as int, a_scale as int),
        holds(bm as int, b_scale as int),
        bm != 0,
    ensures
        r == whole_number_of(
            units(am as int, a_scale as int),
            units(bm as int, b_scale as int),
        ),
{
    let a: i128 = if am < 0 {
        -am
    } else {
        am
    };
    let b: i128 = if bm < 0 {
        -bm
    } else {
        bm
    };
    proof {
        lemma_units_negated(am as int, a_scale as int);
        lemma_units_negated(bm as int, b_scale as int);
        lemma_units_sign(am as int, a_scale as int);
        lemma_units_sign(bm as int, b_scale as int);
        lemma_whole_signs(units(am as int, a_scale as int), units(bm as int, b_scale as int));
    }
    if a_scale <= b_scale {
        // What remains of `a`, brought down digit by digit to the scale of `b`.
        let mut rest: i128 = a % b;
        let mut i: u32 = a_scale;
        assert(a * pow10(0) == a);
        while i < b_scale
            invariant
                0 <= a,
                1 <= b <= MAX_MANTISSA,
                a_scale <= i <= b_scale <= 28,
                0 <= rest < b,
                rest == (a * pow10(i - a_scale)) % (b as int),
            decreases b_scale - i,
        {
            proof {
                let e = pow10(i - a_scale);
                vstd::arithmetic::div_mod::lemma_mul_mod_noop_left(a * e, 10, b as int);
                assert(a * (10 * e) == (a * e) * 10) by (nonlinear_arith);
                vstd::arithmetic::div_mod::lemma_mod_bound((a * e) * 10, b as int);
            }
            rest = rest * 10 % b;
            i += 1;
        }
        proof {
            let p = pow10(28 - b_scale);
            let e = pow10(b_scale - a_scale);
            lemma_pow10_adds(b_scale - a_scale, 28 - b_scale);
            lemma_pow10_positive(28 - b_scale);
            assert(a * (e * p) == (a * e) * p) by (nonlinear_arith);
            lemma_whole_scaled(a * e, b as int, p);
            lemma_whole_mod(a * e, b as int);
        }
        rest == 0
    } else {
        // `b` brought to the scale of `a`, unless it has outgrown `a` by then.
        let mut d: i128 = b;
        let mut i: u32 = b_scale;
        let ghost e = pow10(a_scale - b_scale);
        proof {
            let p = pow10(28 - a_scale);
            lemma_pow10_adds(a_scale - b_scale, 28 - a_scale);
            lemma_pow10_positive(28 - a_scale);
            lemma_pow10_positive(a_scale - b_scale);
            assert(b * (e * p) == (b * e) * p) by (nonlinear_arith);
            lemma_whole_scaled(a as int, b * e, p);
            assert(b * e >= 1) by (nonlinear_arith)
                requires
                    b >= 1,
                    e >= 1,
            ;
            lemma_whole_mod(a as int, b * e);
            assert(b * pow10(0) == b);
        }
        while i < a_scale
            invariant
                0 <= a <= MAX_MANTISSA,
                1 <= b,
                1 <= d <= 10 * MAX_MANTISSA,
                b_scale <= i <= a_scale <= 28,
                d == b * pow10(i - b_scale),
                e == pow10(a_scale - b_scale),
                whole_number_of(
                    units(am as int, a_scale as int),
                    units(bm as int, b_scale as int),
                ) == (a as int % (b * e) == 0),
            decreases a_scale - i,
        {
            if d > a {
                proof {
                    lemma_pow10_grows(i - b_scale, a_scale - b_scale);
                    let (small, x) = (pow10(i - b_scale), b as int);
                    assert(x * small <= x * e) by (nonlinear_arith)
                        requires
                            small <= e,
                            x >= 1,
                    ;
                    vstd::arithmetic::div_mod::lemma_small_mod(a as nat, (b * e) as nat);
                }
                return a == 0;
            }
            proof {
                let (small, x) = (pow10(i - b_scale), b as int);
                assert(x * (10 * small) == 10 * (x * small)) by (nonlinear_arith);
            }
            d = d * 10;
            i += 1;
        }
        a % d == 0
    }
}

proof fn lemma_whole_signs(a: int, b: int)
    ensures
        whole_number_of(a, b) == whole_number_of(abs(a), abs(b)),
{
    if whole_number_of(a, b) {
        let k = choose|k: int| a == #[trigger] (k * b);
        assert(abs(a) == abs(k) * abs(b)) by (nonlinear_arith)
            requires
                a == k * b,
        ;
    }
    if whole_number_of(abs(a), abs(b)) {
        let k = choose|k: int| abs(a) == #[trigger] (k * abs(b));
        let j = if (a < 0) == (b < 0) {
            k
        } else {
            -k
        };
        assert(a == j * b) by (nonlinear_arith)
            requires
                abs(a) == k * abs(b),
                j == if (a < 0) == (b < 0) {
                    k
                } else {
                    -k
                },
        ;
    }
}

proof fn lemma_whole_mod(a: int, b: int)
    requires
        b >= 1,
    ensures
        whole_number_of(a, b) <==> a % b == 0,
{
    lemma_floor(a, b);
    if a % b == 0 {
        let k = a / b;
        assert(b * k == k * b) by (nonlinear_arith);
        assert(a == k * b);
    }
    if whole_number_of(a, b) {
        let k = choose|k: int| a == #[trigger] (k * b);
        vstd::arithmetic::div_mod::lemma_mod_multiples_basic(k, b);
    }
}

/// Both numbers counted in finer units makes no difference.
proof fn lemma_whole_scaled(a: int, b: int, p: int)
    requires
        p >= 1,
    ensures
        whole_number_of(a * p, b * p) == whole_number_of(a, b),
{
    if whole_number_of(a, b) {
        let k = choose|k: int| a == #[trigger] (k * b);
        assert(a * p == k * (b * p)) by (nonlinear_arith)
            requires
                a == k * b,
        ;
    }
    if whole_number_of(a * p, b * p) {
        let k = choose|k: int| a * p == #[trigger] (k * (b * p));
        assert(a == k * b) by (nonlinear_arith)
            requires
                a * p == k * (b * p),
                p >= 1,
        ;
    }
}

/// Whether `n` times one number exceeds another, to the last digit. Neither number is negative.
fn multiple_exceeds(n: i128, gm: i128, g_scale: u32, vm: i128, v_scale: u32) -> (r: bool)
    requires
        1 <= n <= MAX_MANTISSA,
        0 <= gm,
        0 <= vm,
        holds(gm as int, g_scale as int),
        holds(vm as int, v_scale as int),
    ensures
        r == (n * units(gm as int, g_scale as int) > units(vm as int, v_scale as int)),
{
    if g_scale >= v_scale {
        // The digits of `vm / n`, one by one, as far as the scale of `gm` goes.
        let mut q: i128 = vm / n;
        let mut rest: i128 = vm % n;
        let mut i: u32 = v_scale;
        proof {
            lemma_floor(vm as int, n as int);
            assert(vm * pow10(0) == vm);
        }
        while i < g_scale
            invariant
                1 <= n <= MAX_MANTISSA,
                0 <= gm <= MAX_MANTISSA,
                0 <= vm <= MAX_MANTISSA,
                v_scale <= i <= g_scale <= 28,
                0 <= rest < n,
                0 <= q,
                q <= 10 * MAX_MANTISSA,
                vm * pow10(i - v_scale) == n * q + rest,
            decreases g_scale - i,
        {
            if q >= gm {
                proof {
                    lemma_not_exceeded(
                        n as int,
                        gm as int,
                        g_scale as int,
                        vm as int,
                        v_scale as int,
                        i - v_scale,
                        q as int,
                    );
                }
                return false;
            }
            let ghost (q0, r0) = (q as int, rest as int);
            let t: i128 = rest * 10;
            q = q * 10 + t / n;
            rest = t % n;
            proof {
                lemma_floor(10 * r0, n as int);
                let d = 10 * r0 / (n as int);
                assert(d < 10) by (nonlinear_arith)
                    requires
                        0 <= r0 < n,
                        10 * r0 == n * d + rest,
                        rest >= 0,
                        n >= 1,
                ;
                let e = pow10(i - v_scale);
                assert(vm * (10 * e) == 10 * (vm * e)) by (nonlinear_arith);
                assert(n * (q0 * 10 + d) == 10 * (n * q0) + n * d) by (nonlinear_arith);
            }
            i += 1;
        }
        proof {
            lemma_last_digit(
                n as int,
                gm as int,
                g_scale as int,
                vm as int,
                v_scale as int,
                q as int,
                rest as int,
            );
        }
        gm > q
    } else {
        // Digits of `vm` behind the last of `gm` make no difference.
        let mut w: i128 = vm;
        let mut i: u32 = g_scale;
        proof {
            assert(vm as int / pow10(0) == vm);
        }
        while i < v_scale
            invariant
                g_scale <= i <= v_scale <= 28,
                0 <= vm,
                0 <= w,
                w == vm as int / pow10(i - g_scale),
            decreases v_scale - i,
        {
            proof {
                let e = pow10(i - g_scale);
                lemma_pow10_positive(i - g_scale);
                vstd::arithmetic::div_mod::lemma_div_denominator(vm as int, e, 10);
                assert(e * 10 == 10 * e) by (nonlinear_arith);
            }
            w = w / 10;
            i += 1;
        }
        proof {
            lemma_short(n as int, gm as int, g_scale as int, vm as int, v_scale as int, w as int);
        }
        gm > w / n
    }
}

proof fn lemma_floor(a: int, b: int)
    requires
        b >= 1,
    ensures
        a == b * (a / b) + a % b,
        0 <= a % b < b,
        a >= 0 ==> a / b >= 0,
{
    vstd::arithmetic::div_mod::lemma_fundamental_div_mod(a, b);
    vstd::arithmetic::div_mod::lemma_mod_bound(a, b);
    assert(a >= 0 ==> a / b >= 0) by (nonlinear_arith)
        requires
            b >= 1,
    ;
}

/// Once the digits so far reach `gm`, all of them do.
proof fn lemma_not_exceeded(
    n: int,
    gm: int,
    g_scale: int,
    vm: int,
    v_scale: int,
    i: int,
    q: int,
)
    requires
        n >= 1,
        gm >= 0,
        vm >= 0,
        0 <= i <= g_scale - v_scale,
        0 <= v_scale,
        g_scale <= 28,
        q >= gm,
        vm * pow10(i) >= n * q,
    ensures
        n * units(gm, g_scale) <= units(vm, v_scale),
{
    let p = pow10(28 - g_scale);
    let e = pow10(i);
    let f = pow10(g_scale - v_scale - i);
    lemma_pow10_adds(i, g_scale - v_scale - i);
    lemma_pow10_adds(g_scale - v_scale, 28 - g_scale);
    lemma_pow10_positive(28 - g_scale);
    lemma_pow10_positive(g_scale - v_scale - i);
    assert(n * gm <= n * q) by (nonlinear_arith)
        requires
            n >= 1,
            q >= gm,
    ;
    let a = vm * e;
    let b = n * gm;
    assert(b >= 0) by (nonlinear_arith)
        requires
            n >= 1,
            gm >= 0,
            b == n * gm,
    ;
    assert(a * f >= b) by (nonlinear_arith)
        requires
            a >= b,
            b >= 0,
            f >= 1,
    ;
    assert(vm * ((e * f) * p) == (a * f) * p) by (nonlinear_arith)
        requires
            a == vm * e,
    ;
    assert((a * f) * p >= b * p) by (nonlinear_arith)
        requires
            a * f >= b,
            p >= 1,
    ;
    assert(n * (gm * p) == b * p) by (nonlinear_arith)
        requires
            b == n * gm,
    ;
}

/// With all the digits there, `gm` decides.
proof fn lemma_last_digit(
    n: int,
    gm: int,
    g_scale: int,
    vm: int,
    v_scale: int,
    q: int,
    rest: int,
)
    requires
        n >= 1,
        0 <= v_scale <= g_scale <= 28,
        0 <= rest < n,
        vm * pow10(g_scale - v_scale) == n * q + rest,
    ensures
        gm > q <==> n * units(gm, g_scale) > units(vm, v_scale),
{
    let p = pow10(28 - g_scale);
    let e = pow10(g_scale - v_scale);
    lemma_pow10_adds(g_scale - v_scale, 28 - g_scale);
    lemma_pow10_positive(28 - g_scale);
    let a = vm * e;
    let b = n * gm;
    assert(gm > q ==> b > a) by (nonlinear_arith)
        requires
            b == n * gm,
            a == n * q + rest,
            rest < n,
            n >= 1,
    ;
    assert(gm <= q ==> b <= a) by (nonlinear_arith)
        requires
            b == n * gm,
            a == n * q + rest,
            rest >= 0,
            n >= 1,
    ;
    assert(vm * (e * p) == a * p) by (nonlinear_arith)
        requires
            a == vm * e,
    ;
    assert(n * (gm * p) == b * p) by (nonlinear_arith)
        requires
            b == n * gm,
    ;
    assert(b > a <==> b * p > a * p) by (nonlinear_arith)
        requires
            p >= 1,
    ;
}

proof fn lemma_short(n: int, gm: int, g_scale: int, vm: int, v_scale: int, w: int)
    requires
        n >= 1,
        vm >= 0,
        0 <= g_scale <= v_scale <= 28,
        w == vm / pow10(v_scale - g_scale),
    ensures
        gm > w / n <==> n * units(gm, g_scale) > units(vm, v_scale),
{
    let p = pow10(28 - v_scale);
    let e = pow10(v_scale - g_scale);
    lemma_pow10_adds(v_scale - g_scale, 28 - v_scale);
    lemma_pow10_positive(28 - v_scale);
    lemma_pow10_positive(v_scale - g_scale);
    lemma_floor(vm, e);
    lemma_floor(w, n);
    let x = w / n;
    let rest = w % n;
    let low = vm % e;
    let b = n * gm;
    assert(gm > x ==> b >= w + 1) by (nonlinear_arith)
        requires
            b == n * gm,
            w == n * x + rest,
            rest < n,
            n >= 1,
    ;
    assert(gm <= x ==> b <= w) by (nonlinear_arith)
        requires
            b == n * gm,
            w == n * x + rest,
            rest >= 0,
            n >= 1,
    ;
    assert(b >= w + 1 ==> b * e > vm) by (nonlinear_arith)
        requires
            vm == e * w + low,
            low < e,
            e >= 1,
    ;
    assert(b <= w ==> b * e <= vm) by (nonlinear_arith)
        requires
            vm == e * w + low,
            low >= 0,
            e >= 1,
    ;
    assert(n * (gm * (e * p)) == (b * e) * p) by (nonlinear_arith)
        requires
            b == n * gm,
    ;
    assert(b * e > vm <==> (b * e) * p > vm * p) by (nonlinear_arith)
        requires
            p >= 1,
    ;
}

/// The whole part of a rounded quotient is the whole part of the exact one, or one more.
proof fn lemma_near_positive(a: int, b: int, q: int)
    requires
        a >= 0,
        b > 0,
        forall|k: int| #[trigger] past_no_whole(k, a, b, q),
    ensures
        q >= 0,
        q / one() >= 0,
        (q / one() - 1) * b < a < (q / one() + 1) * b,
{
    let u = one();
    lemma_pow10_positive(28);
    assert(past_no_whole(0, a, b, q));
    assert(0 * b == 0) by (nonlinear_arith);
    let k = q / u;
    lemma_floor(q, u);
    assert(u * k == k * u) by (nonlinear_arith);
    assert(past_no_whole(k + 1, a, b, q));
    assert(past_no_whole(k - 1, a, b, q));
    assert((k + 1) * u == k * u + u) by (nonlinear_arith);
    assert((k - 1) * u == k * u - u) by (nonlinear_arith);
}

proof fn lemma_near(a: int, b: int, q: int)
    requires
        b != 0,
        forall|k: int| #[trigger] past_no_whole(k, a, b, q),
    ensures
        ({
            let k = toward_zero(q, one());
            &&& (abs(k) - 1) * abs(b) < abs(a) < (abs(k) + 1) * abs(b)
            &&& k > 0 ==> (a < 0) == (b < 0)
            &&& k < 0 ==> (a < 0) != (b < 0)
        }),
{
    let u = one();
    lemma_pow10_positive(28);
    // Turn both signs where the divisor is negative, then the sign of the quotient.
    let b1 = abs(b);
    let a1 = if b < 0 {
        -a
    } else {
        a
    };
    assert forall|k: int| #[trigger] past_no_whole(k, a1, b1, q) by {
        assert(past_no_whole(k, a, b, q));
        assert(k * (-b) == -(k * b)) by (nonlinear_arith);
    }
    let a2 = abs(a1);
    let q2 = if a1 < 0 {
        -q
    } else {
        q
    };
    assert forall|k: int| #[trigger] past_no_whole(k, a2, b1, q2) by {
        assert(past_no_whole(k, a1, b1, q));
        assert(past_no_whole(-k, a1, b1, q));
        assert((-k) * b1 == -(k * b1)) by (nonlinear_arith);
        assert((-k) * u == -(k * u)) by (nonlinear_arith);
    }
    lemma_near_positive(a2, b1, q2);
    let k2 = q2 / u;
    let k = toward_zero(q, u);
    assert(0int / u == 0) by (nonlinear_arith)
        requires
            u >= 1,
    ;
    assert(a1 < 0 ==> k == -k2);
    assert(a1 >= 0 ==> k == k2);
    // Nothing is no multiple of anything: where `a` is zero, so is the quotient.
    assert(past_no_whole(0, a1, b1, q));
    assert(0 * b1 == 0) by (nonlinear_arith);
}

/// The number of steps from one that is right or one too many.
proof fn lemma_steps_from(a: int, b: int, whole: int, k: int)
    requires
        b != 0,
        (abs(whole) - 1) * abs(b) < abs(a) < (abs(whole) + 1) * abs(b),
        whole > 0 ==> (a < 0) == (b < 0),
        whole < 0 ==> (a < 0) != (b < 0),
        k == if abs(whole) > 0 && abs(whole) * abs(b) > abs(a) {
            if whole < 0 {
                -(abs(whole) - 1)
            } else {
                abs(whole) - 1
            }
        } else {
            whole
        },
    ensures
        k == steps(a, b),
{
    let n = abs(k);
    let (x, y, w) = (abs(a), abs(b), abs(whole));
    assert((w + 1) * y == w * y + y) by (nonlinear_arith);
    assert((w - 1) * y == w * y - y) by (nonlinear_arith);
    assert(0 * y == 0) by (nonlinear_arith);
    assert(n * y <= x < n * y + y);
    vstd::arithmetic::div_mod::lemma_fundamental_div_mod_converse(x, y, n, x - n * y);
}

/// What is counted in steps is at most one step short of the number, on the side of zero, and is
/// the number itself where it is a whole number of them.
pub proof fn lemma_steps(a: int, b: int)
    requires
        b != 0,
    ensures
        abs(steps(a, b) * b) <= abs(a),
        abs(a - steps(a, b) * b) < abs(b),
        a >= 0 ==> steps(a, b) * b >= 0,
        a <= 0 ==> steps(a, b) * b <= 0,
        whole_number_of(a, b) <==> steps(a, b) * b == a,
{
    let n = abs(a) / abs(b);
    let k = steps(a, b);
    let y = abs(b);
    lemma_floor(abs(a), y);
    assert(y * n == n * y) by (nonlinear_arith);
    assert(n * y >= 0) by (nonlinear_arith)
        requires
            n >= 0,
            y >= 1,
    ;
    assert(n * (-b) == -(n * b)) by (nonlinear_arith);
    assert((-n) * b == -(n * b)) by (nonlinear_arith);
    if whole_number_of(a, b) {
        let j = choose|j: int| a == #[trigger] (j * b);
        assert(abs(a) == abs(j) * y) by (nonlinear_arith)
            requires
                a == j * b,
                y == abs(b),
        ;
        vstd::arithmetic::div_mod::lemma_div_multiples_vanish(abs(j), y);
        assert(y * abs(j) == abs(j) * y) by (nonlinear_arith);
    }
    if k * b == a {
        assert(whole_number_of(a, b));
    }
}

/// What a text is read as where both notations are accepted.
pub open spec fn any_parsed(text: Seq<char>) -> Option<(int, int)> {
    if decimal_parsed(text) is Some {
        decimal_parsed(text)
    } else {
        decimal_scientific(text)
    }
}

pub open spec fn greater_of(a: Decimal, b: Decimal) -> Decimal {
    if a@ < b@ {
        b
    } else {
        a
    }
}

pub open spec fn lesser_of(a: Decimal, b: Decimal) -> Decimal {
    if b@ < a@ {
        b
    } else {
        a
    }
}

impl PartialEq for Decimal {
    fn eq(&self, other: &Self) -> (r: bool) {
        self.equals(*other)
    }
}

impl vstd::std_specs::cmp::PartialEqSpecImpl for Decimal {
    open spec fn obeys_eq_spec() -> bool {
        true
    }

    open spec fn eq_spec(&self, other: &Self) -> bool {
        self@ == other@
    }
}

impl Eq for Decimal {

}

impl PartialOrd for Decimal {
    fn partial_cmp(&self, other: &Self) -> (r: Option<core::cmp::Ordering>) {
        if self.less(*other) {
            Some(core::cmp::Ordering::Less)
        } else if other.less(*self) {
            Some(core::cmp::Ordering::Greater)
        } else {
            Some(core::cmp::Ordering::Equal)
        }
    }
}

impl vstd::std_specs::cmp::PartialOrdSpecImpl for Decimal {
    open spec fn obeys_partial_cmp_spec() -> bool {
        true
    }

    open spec fn partial_cmp_spec(&self, other: &Self) -> Option<core::cmp::Ordering> {
        if self@ < other@ {
            Some(core::cmp::Ordering::Less)
        } else if other@ < self@ {
            Some(core::cmp::Ordering::Greater)
        } else {
            Some(core::cmp::Ordering::Equal)
        }
    }
}

/// A number has at least one digit, and its digits are none but digits.
pub proof fn lemma_digits(value: int)
    requires
        value >= 0,
    ensures
        digits(value).len() >= 1,
        value >= 10 ==> digits(value).len() >= 2,
        '0' <= digits(value)[0] <= '9',
    decreases value,
{
    if value >= 10 {
        lemma_digits(value / 10);
    }
}

/// What digits are worth, read from the left.
pub open spec fn worth(text: Seq<char>) -> int
    decreases text.len(),
{
    if text.len() == 0 {
        0
    } else {
        10 * worth(text.drop_last()) + (text.last() as u32 - 48)
    }
}

/// A number that is written out is read back as it was, and has no zero in front but where it is
/// zero.
pub proof fn digits_are_read_back(value: int)
    requires
        value >= 0,
    ensures
        worth(digits(value)) == value,
        value > 0 ==> digits(value)[0] != '0',
        forall|i: int| 0 <= i < digits(value).len() ==> '0' <= #[trigger] digits(value)[i] <= '9',
    decreases value,
{
    let text = digits(value);
    if value < 10 {
        assert(text.drop_last() =~= Seq::<char>::empty());
        assert(worth(text.drop_last()) == 0);
        assert(text.last() as u32 == value + 48);
        assert(text.len() == 1);
    } else {
        digits_are_read_back(value / 10);
        lemma_digits(value / 10);
        assert(text.drop_last() =~= digits(value / 10));
        assert(text.last() as u32 == value % 10 + 48);
        assert(text[0] == digits(value / 10)[0]);
        assert forall|i: int| 0 <= i < text.len() implies '0' <= #[trigger] text[i] <= '9' by {
            if i < text.len() - 1 {
                assert(text[i] == digits(value / 10)[i]);
            }
        }
    }
}

/// A number written with so many digits has so many, and where it needs no more it is read back as
/// it was.
pub proof fn padded_digits_are_read_back(value: int, n: int)
    requires
        0 <= value < pow10(n),
        n >= 0,
    ensures
        padded(value, n).len() == n,
        worth(padded(value, n)) == value,
    decreases n,
{
    let text = padded(value, n);
    if n > 0 {
        let p = pow10(n - 1);
        assert(value / 10 < p) by (nonlinear_arith)
            requires
                value < 10 * p,
        ;
        padded_digits_are_read_back(value / 10, n - 1);
        assert(text.drop_last() =~= padded(value / 10, n - 1));
        assert(text.last() as u32 == value % 10 + 48);
    }
}

/// Taking the zeros off the end of a fraction leaves the number what it is, and none at its end.
pub proof fn trimming_keeps_the_number(parts: (int, int))
    requires
        0 <= parts.1 <= 28,
    ensures
        units(trimmed(parts).0, trimmed(parts).1) == units(parts.0, parts.1),
        0 <= trimmed(parts).1 <= parts.1,
        trimmed(parts).1 == 0 || trimmed(parts).0 % 10 != 0,
    decreases parts.1,
{
    if parts.1 > 0 && parts.0 % 10 == 0 {
        let p = pow10(28 - parts.1);
        let q = parts.0 / 10;
        assert(pow10(28 - (parts.1 - 1)) == 10 * p);
        assert(q * (10 * p) == parts.0 * p) by (nonlinear_arith)
            requires
                parts.0 == 10 * q,
        ;
        trimming_keeps_the_number((q, parts.1 - 1));
    }
}

/// The greater of two is one of them and no less than either, and the lesser no more.
pub proof fn extremes_are_among_the_two(a: Decimal, b: Decimal)
    ensures
        greater_of(a, b) == a || greater_of(a, b) == b,
        greater_of(a, b)@ >= a@ && greater_of(a, b)@ >= b@,
        lesser_of(a, b) == a || lesser_of(a, b) == b,
        lesser_of(a, b)@ <= a@ && lesser_of(a, b)@ <= b@,
        a@ == b@ ==> greater_of(a, b) == a && lesser_of(a, b) == a,
{
}

/// Different numbers have different digits.
pub proof fn lemma_digits_apart(a: int, b: int)
    requires
        a >= 0,
        b >= 0,
        digits(a) == digits(b),
    ensures
        a == b,
    decreases a,
{
    lemma_digits(a);
    lemma_digits(b);
    assert(digits(a).last() == digit(a % 10));
    assert(digits(b).last() == digit(b % 10));
    if a >= 10 {
        assert(digits(a).drop_last() =~= digits(a / 10));
        assert(digits(b).drop_last() =~= digits(b / 10));
        lemma_digits_apart(a / 10, b / 10);
    }
}

/// An integer ends with a digit.
pub proof fn lemma_integer_text_ends(value: int)
    ensures
        integer_text(value).len() > 0,
        '0' <= integer_text(value).last() <= '9',
{
    let n = abs(value);
    lemma_digits(n);
    assert(digits(n).last() == digit(n % 10));
    assert(integer_text(value).last() == digits(n).last());
}

/// Different integers are printed differently.
pub proof fn lemma_integer_text_apart(a: int, b: int)
    requires
        integer_text(a) == integer_text(b),
    ensures
        a == b,
{
    if a >= 0 {
        lemma_digits(a);
    }
    if b >= 0 {
        lemma_digits(b);
    }
    if a < 0 && b < 0 {
        assert(integer_text(a).skip(1) =~= digits(-a));
        assert(integer_text(b).skip(1) =~= digits(-b));
        lemma_digits_apart(-a, -b);
    } else if a >= 0 && b >= 0 {
        lemma_digits_apart(a, b);
    } else if a < 0 {
        assert(integer_text(a)[0] == '-');
    } else {
        assert(integer_text(b)[0] == '-');
    }
}

pub proof fn lemma_pow10_positive(n: int)
    ensures
        pow10(n) >= 1,
    decreases n,
{
    if n > 0 {
        lemma_pow10_positive(n - 1);
    }
}

pub proof fn lemma_pow10_adds(a: int, b: int)
    requires
        a >= 0,
        b >= 0,
    ensures
        pow10(a + b) == pow10(a) * pow10(b),
    decreases a,
{
    if a > 0 {
        lemma_pow10_adds(a - 1, b);
        assert(10 * (pow10(a - 1) * pow10(b)) == (10 * pow10(a - 1)) * pow10(b))
            by (nonlinear_arith);
    }
}

pub proof fn lemma_pow10_grows(a: int, b: int)
    requires
        a <= b,
    ensures
        pow10(a) <= pow10(b),
    decreases b - a,
{
    if a < b {
        lemma_pow10_positive(b - 1);
        lemma_pow10_grows(a, b - 1);
    }
}

/// How large a mantissa is, from how large the number is.
proof fn lemma_mantissa_bound(m: int, s: int, whole: int)
    requires
        0 <= s <= 28,
        whole >= 0,
        abs(units(m, s)) <= whole * one(),
    ensures
        abs(m) <= whole * pow10(s),
{
    let p = pow10(28 - s);
    let d = pow10(s);
    lemma_pow10_positive(28 - s);
    lemma_pow10_adds(28 - s, s);
    lemma_units_sign(m, s);
    lemma_units_negated(m, s);
    let a = abs(m);
    assert(a <= whole * d) by (nonlinear_arith)
        requires
            a * p <= whole * (p * d),
            p >= 1,
    ;
}

/// Whether adding two numbers keeps every digit, from how large they are: a scale of at most eleven
/// leaves room for values below seven times ten to the seventeenth.
pub proof fn lemma_sum_keeps_digits(a: (int, int), b: (int, int), whole: int)
    requires
        0 <= a.1 <= 11,
        0 <= b.1 <= 11,
        0 <= whole <= 700_000_000_000_000_000,
        abs(units(a.0, a.1) + units(b.0, b.1)) <= whole * one(),
    ensures
        sum_is_exact(a, b),
        units(exact_sum(a, b).0, exact_sum(a, b).1) == units(a.0, a.1) + units(b.0, b.1),
        abs(exact_sum(a, b).0) <= whole * pow10(exact_sum(a, b).1),
        exact_sum(a, b).1 == a.1 || exact_sum(a, b).1 == b.1,
{
    let s = larger(a.1, b.1);
    lemma_aligned_sum(a.0, a.1, b.0, b.1);
    lemma_exact_sum(a, b);
    lemma_mantissa_bound(aligned_sum(a.0, a.1, b.0, b.1), s, whole);
    lemma_mantissa_bound(exact_sum(a, b).0, exact_sum(a, b).1, whole);
    lemma_pow10_grows(s, 11);
    assert(pow10(11) == 100_000_000_000) by {
        reveal_with_fuel(pow10, 12);
    }
    let d = pow10(s);
    assert(whole * d <= 700_000_000_000_000_000 * 100_000_000_000) by (nonlinear_arith)
        requires
            0 <= whole <= 700_000_000_000_000_000,
            d <= 100_000_000_000,
    ;
}

/// Every decimal is within the range of decimals.
pub proof fn lemma_representable_in_range(v: int)
    requires
        representable(v),
    ensures
        in_range(v),
{
    let (m, s) = choose|m: int, s: int| #[trigger] units(m, s) == v && holds(m, s);
    let p = pow10(28 - s);
    let q = pow10(s);
    lemma_pow10_adds(28 - s, s);
    lemma_pow10_positive(s);
    lemma_pow10_positive(28 - s);
    assert(-(MAX_MANTISSA * (p * q)) <= m * p <= MAX_MANTISSA * (p * q)) by (nonlinear_arith)
        requires
            p >= 1,
            q >= 1,
            -MAX_MANTISSA <= m <= MAX_MANTISSA,
    ;
}

/// Where a product is exactly some decimal, it is within the range, and nothing is past it.
proof fn lemma_decimal_product(product: int)
    ensures
        representable(0),
        forall|v: int|
            #![trigger representable(v)]
            representable(v) && v * one() == product ==> abs(product) <= max_units() * one(),
{
    assert(units(0, 0) == 0 && holds(0, 0)) by {
        lemma_units_sign(0, 0);
    }
    lemma_pow10_positive(28);
    let u = one();
    assert forall|v: int| #![trigger representable(v)] representable(v) && v * one()
        == product implies abs(product) <= max_units() * one() by {
        lemma_representable_in_range(v);
        assert(abs(v * u) <= max_units() * u) by (nonlinear_arith)
            requires
                abs(v) <= max_units(),
                u >= 1,
        ;
    }
}

proof fn lemma_product_sign(a: int, b: int)
    ensures
        (a >= 0 && b >= 0) || (a <= 0 && b <= 0) ==> a * b >= 0,
        (a >= 0 && b <= 0) || (a <= 0 && b >= 0) ==> a * b <= 0,
{
    assert((a >= 0 && b >= 0) || (a <= 0 && b <= 0) ==> a * b >= 0) by (nonlinear_arith);
    assert((a >= 0 && b <= 0) || (a <= 0 && b >= 0) ==> a * b <= 0) by (nonlinear_arith);
}

/// A value has the sign of its mantissa.
pub proof fn lemma_units_sign(m: int, s: int)
    ensures
        m > 0 <==> units(m, s) > 0,
        m == 0 <==> units(m, s) == 0,
        m < 0 <==> units(m, s) < 0,
{
    lemma_pow10_positive(28 - s);
    let p = pow10(28 - s);
    assert(m > 0 ==> m * p > 0) by (nonlinear_arith)
        requires
            p >= 1,
    ;
    assert(m < 0 ==> m * p < 0) by (nonlinear_arith)
        requires
            p >= 1,
    ;
    assert(m == 0 ==> m * p == 0) by (nonlinear_arith);
}

proof fn lemma_units_negated(m: int, s: int)
    ensures
        units(-m, s) == -units(m, s),
{
    let p = pow10(28 - s);
    assert((-m) * p == -(m * p)) by (nonlinear_arith);
}

/// Bringing two numbers to the larger scale and adding the mantissas adds the values.
proof fn lemma_aligned_sum(am: int, a_scale: int, bm: int, b_scale: int)
    requires
        0 <= a_scale <= 28,
        0 <= b_scale <= 28,
    ensures
        units(aligned_sum(am, a_scale, bm, b_scale), larger(a_scale, b_scale)) == units(
            am,
            a_scale,
        ) + units(bm, b_scale),
        units(0, a_scale) == 0,
        units(0, b_scale) == 0,
{
    lemma_units_sign(0, a_scale);
    lemma_units_sign(0, b_scale);
    if a_scale <= b_scale {
        let d = pow10(b_scale - a_scale);
        let p = pow10(28 - b_scale);
        lemma_pow10_adds(b_scale - a_scale, 28 - b_scale);
        assert((am * d + bm) * p == am * (d * p) + bm * p) by (nonlinear_arith);
    } else {
        let d = pow10(a_scale - b_scale);
        let p = pow10(28 - a_scale);
        lemma_pow10_adds(a_scale - b_scale, 28 - a_scale);
        assert((am + bm * d) * p == am * p + bm * (d * p)) by (nonlinear_arith);
    }
}

/// The sum that keeps every digit adds the values.
pub proof fn lemma_exact_sum(a: (int, int), b: (int, int))
    requires
        0 <= a.1 <= 28,
        0 <= b.1 <= 28,
    ensures
        units(exact_sum(a, b).0, exact_sum(a, b).1) == units(a.0, a.1) + units(b.0, b.1),
        0 <= exact_sum(a, b).1 <= 28,
{
    lemma_aligned_sum(a.0, a.1, b.0, b.1);
}

/// Where every digit can be kept, the total has the value of the sum.
pub proof fn lemma_exact_total(amounts: Seq<(int, int)>)
    requires
        adds_up(amounts),
        forall|i: int|
            0 <= i < amounts.len() ==> holds(
                (#[trigger] amounts[i]).0,
                amounts[i].1,
            ),
    ensures
        units(exact_total(amounts).0, exact_total(amounts).1) == sum_units(amounts),
        0 <= exact_total(amounts).1 <= 28,
    decreases amounts.len(),
{
    if amounts.len() == 0 {
        lemma_units_sign(0, 0);
    } else {
        let rest = amounts.drop_last();
        assert forall|i: int| 0 <= i < rest.len() implies holds(
            (#[trigger] rest[i]).0,
            rest[i].1,
        ) by {
            assert(rest[i] == amounts[i]);
        }
        lemma_exact_total(rest);
        let last = amounts[amounts.len() - 1];
        let total = exact_total(rest);
        lemma_exact_sum(total, last);
    }
}

/// There is one way to write a number without zeros at the end of its fraction.
proof fn lemma_trimmed(a: (int, int), b: (int, int))
    requires
        0 <= a.1 <= 28,
        0 <= b.1 <= 28,
        units(a.0, a.1) == units(b.0, b.1),
        b.1 == 0 || b.0 % 10 != 0,
    ensures
        trimmed(a) == b,
    decreases a.1,
{
    if a.1 > 0 && a.0 % 10 == 0 {
        let p = pow10(28 - a.1);
        let q = a.0 / 10;
        assert(q * (10 * p) == a.0 * p) by (nonlinear_arith)
            requires
                a.0 == 10 * q,
        ;
        lemma_trimmed((q, a.1 - 1), b);
    } else if a.1 < b.1 {
        let d = pow10(b.1 - a.1);
        let p = pow10(28 - b.1);
        lemma_pow10_adds(b.1 - a.1, 28 - b.1);
        lemma_pow10_positive(28 - b.1);
        assert(b.0 == a.0 * d) by (nonlinear_arith)
            requires
                a.0 * (d * p) == b.0 * p,
                p >= 1,
        ;
        let e = pow10(b.1 - a.1 - 1);
        assert(b.0 == 10 * (a.0 * e)) by (nonlinear_arith)
            requires
                b.0 == a.0 * d,
                d == 10 * e,
        ;
    } else if a.1 > b.1 {
        let d = pow10(a.1 - b.1);
        let p = pow10(28 - a.1);
        lemma_pow10_adds(a.1 - b.1, 28 - a.1);
        lemma_pow10_positive(28 - a.1);
        assert(a.0 == b.0 * d) by (nonlinear_arith)
            requires
                b.0 * (d * p) == a.0 * p,
                p >= 1,
        ;
        let e = pow10(a.1 - b.1 - 1);
        assert(a.0 == 10 * (b.0 * e)) by (nonlinear_arith)
            requires
                a.0 == b.0 * d,
                d == 10 * e,
        ;
    } else {
        let p = pow10(28 - a.1);
        lemma_pow10_positive(28 - a.1);
        assert(a.0 == b.0) by (nonlinear_arith)
            requires
                a.0 * p == b.0 * p,
                p >= 1,
        ;
    }
}

/// Dividing out the power of ten that both sides of a value hold.
proof fn lemma_unit_quotient(m: int, s: int)
    requires
        m >= 0,
        0 <= s <= 28,
    ensures
        units(m, s) / one() == m / pow10(s),
{
    let p = pow10(28 - s);
    let d = pow10(s);
    lemma_pow10_positive(28 - s);
    lemma_pow10_positive(s);
    lemma_pow10_adds(28 - s, s);
    let q = m / d;
    let r = m % d;
    vstd::arithmetic::div_mod::lemma_fundamental_div_mod(m, d);
    vstd::arithmetic::div_mod::lemma_mod_bound(m, d);
    assert(m * p == q * (p * d) + r * p) by (nonlinear_arith)
        requires
            m == d * q + r,
    ;
    assert(0 <= r * p < p * d) by (nonlinear_arith)
        requires
            0 <= r < d,
            p >= 1,
    ;
    vstd::arithmetic::div_mod::lemma_fundamental_div_mod_converse(m * p, p * d, q, r * p);
}

proof fn lemma_toward_zero(m: int, s: int)
    requires
        holds(m, s),
    ensures
        toward_zero(units(m, s), one()) == toward_zero(m, pow10(s)),
        toward_zero(m, pow10(s)) * one() == units(toward_zero(m, pow10(s)), 0),
        holds(toward_zero(m, pow10(s)), 0),
{
    lemma_units_sign(m, s);
    lemma_units_negated(m, s);
    lemma_pow10_positive(s);
    lemma_unit_quotient(abs(m), s);
    let d = pow10(s);
    let a = abs(m);
    assert(0 <= a / d <= a) by (nonlinear_arith)
        requires
            a >= 0,
            d >= 1,
    ;
}

} // verus!

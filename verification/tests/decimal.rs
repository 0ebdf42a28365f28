use moon_own::decimal::Decimal;
use moon_own::text;

fn dec(text: &str) -> Decimal {
    Decimal::parse(text).unwrap()
}

#[test]
fn a_text_is_read_and_printed_with_its_digits() {
    for t in ["0", "0.00", "-0.05", "63096.01000000", "79228162514264337593543950335"] {
        assert_eq!(dec(t).to_string(), t);
    }
    assert!(Decimal::parse("abc").is_none());
    assert!(Decimal::parse("").is_none());
}

#[test]
fn numbers_are_compared_by_value() {
    assert_eq!(dec("1.10"), dec("1.1"));
    assert!(dec("1.1") < dec("1.11"));
    assert!(dec("-2") < dec("1"));
    assert!(!dec("3").less(dec("3.0")));
    assert!(dec("3").equals(dec("3.0")));
}

#[test]
fn sums_keep_every_digit() {
    assert_eq!(dec("0.1").plus(dec("0.2")).to_string(), "0.3");
    assert_eq!(dec("0").plus(dec("1.50")).to_string(), "1.50");
    assert_eq!(dec("1.5").plus(dec("-0.25")).to_string(), "1.25");
    assert_eq!(dec("1").minus(dec("0.001")).to_string(), "0.999");
}

#[test]
fn an_operation_that_leaves_the_range_gives_nothing() {
    let most = dec("79228162514264337593543950335");
    assert!(most.checked_add(Decimal::one()).is_none());
    assert!(most.checked_mul(Decimal::two()).is_none());
    assert!(dec("-79228162514264337593543950335").checked_sub(Decimal::one()).is_none());
    assert!(Decimal::one().checked_div(Decimal::zero()).is_none());
    assert!(most.checked_sub(most).unwrap().is_zero());
}

#[test]
fn products_and_quotients() {
    assert_eq!(dec("64123.4").times(dec("0.001")).to_string(), "64.1234");
    assert_eq!(dec("1").over(dec("8")), dec("0.125"));
    assert_eq!(dec("-7").over(Decimal::two()), dec("-3.5"));
    assert_eq!(Decimal::zero().times(dec("5")), Decimal::zero());
    assert_eq!(Decimal::negative_one().times(dec("5")), dec("-5"));
}

#[test]
fn a_whole_number_of_increments_is_told_from_one_that_is_not() {
    assert!(dec("64123.4").divides_evenly_by(dec("0.10")));
    assert!(!dec("64123.45").divides_evenly_by(dec("0.10")));
    assert!(dec("-0.3").divides_evenly_by(dec("0.1")));
    assert!(Decimal::zero().divides_evenly_by(dec("7")));
    assert!(dec("6").divides_evenly_by(dec("0.0000000003")));
    assert!(!dec("0.3").divides_evenly_by(dec("7922816251426433759354395033")));
    // A dividend of many more digits than the divisor, once both are at one scale.
    let step = dec("3961408126900000000.0000000000");
    assert!(dec("34028236698326827597900000000").divides_evenly_by(step));
    assert!(!dec("34028236698326827597900000001").divides_evenly_by(step));
}

#[test]
fn the_fraction_can_be_dropped() {
    assert_eq!(dec("2.9").round_to_zero(), dec("2"));
    assert_eq!(dec("-2.9").round_to_zero(), dec("-2"));
    assert_eq!(dec("-2.9").to_i64(), Some(-2));
    assert_eq!(dec("9223372036854775808").to_i64(), None);
}

#[test]
fn zeros_at_the_end_can_be_dropped() {
    assert_eq!(dec("62958.64000000").normalize().to_string(), "62958.64");
    assert_eq!(dec("-100.00").normalize().to_string(), "-100");
    assert_eq!(dec("0.000").normalize().to_string(), "0");
    assert_eq!(dec("1200").normalize().to_string(), "1200");
}

#[test]
fn three_digits_are_cut_off_and_not_rounded() {
    assert_eq!(dec("1.98019").to_thousandths(), "1.980");
    assert_eq!(dec("-0.9909").to_thousandths(), "-0.990");
    assert_eq!(dec("-0.0004").to_thousandths(), "-0.000");
    assert_eq!(dec("12.5").to_thousandths(), "12.500");
    assert_eq!(dec("0").to_thousandths(), "0.000");
    let widest = dec("9999999999999999999999999999.9");
    assert!(widest.fits_thousandths());
    assert_eq!(widest.to_thousandths(), "9999999999999999999999999999.900");
    assert_eq!(dec("-9999999999999999999999999999").to_thousandths(), "-9999999999999999999999999999.000");
    assert!(!dec("10000000000000000000000000000").fits_thousandths());
    assert!(!dec("-79228162514264337593543950335").fits_thousandths());
}

#[test]
fn the_greater_and_the_lesser() {
    assert_eq!(dec("2").max(dec("3")), dec("3"));
    assert_eq!(dec("2").min(dec("3")), dec("2"));
    assert_eq!(dec("-2.5").abs(), dec("2.5"));
    assert_eq!(dec("2.5").abs(), dec("2.5"));
    assert_eq!(Decimal::new(8, 2), dec("0.08"));
}

#[test]
fn both_notations_are_read_where_both_are_accepted() {
    assert_eq!(Decimal::parse_any("0.25"), Some(dec("0.25")));
    assert_eq!(Decimal::parse_any("1e-7"), Some(dec("0.0000001")));
    assert_eq!(Decimal::parse_any("nonsense"), None);
}

#[test]
fn texts_are_compared_and_counted_by_character() {
    assert!(text::same("größe", "größe"));
    assert!(!text::same("a", "ab"));
    assert!(text::comes_before("BTC", "BTCUSDT"));
    assert!(text::comes_before("a", "b"));
    assert!(!text::comes_before("b", "a"));
    assert!(!text::comes_before("a", "a"));
    assert_eq!(text::chars_of("a×b"), vec!['a', '×', 'b']);
}

#[test]
fn integers_are_printed_in_decimal() {
    assert_eq!(text::unsigned(0), "0");
    assert_eq!(text::unsigned(u64::MAX), "18446744073709551615");
    assert_eq!(text::signed(i64::MIN), "-9223372036854775808");
    assert_eq!(text::signed(42), "42");
    assert_eq!(text::two_digits(7), "07");
    assert_eq!(text::three_digits(123), "123");
    assert_eq!(text::three_digits(5), "005");
}

#[test]
fn whole_steps_are_counted_to_the_last_digit() {
    assert_eq!(dec("10.80").whole_steps(dec("0.25")), dec("43"));
    assert_eq!(dec("-10.80").whole_steps(dec("0.25")), dec("-43"));
    assert_eq!(dec("10.80").whole_steps(dec("-0.25")), dec("-43"));
    assert_eq!(dec("0").whole_steps(dec("7")), dec("0"));
    assert_eq!(dec("6").whole_steps(dec("0.0000000003")), dec("20000000000"));
    // The quotient of either is rounded to one.
    assert_eq!(dec("1.9999999999999999999999999999").whole_steps(dec("2")), dec("0"));
    assert_eq!(dec("2.0000000000000000000000000001").whole_steps(dec("2")), dec("1"));
    assert_eq!(dec("7").whole_steps(dec("7.0000000000000000000000000001")), dec("0"));
    // Half a step more than the last digit can tell.
    assert_eq!(
        dec("79228162514264337593543950335").whole_steps(dec("2")),
        dec("39614081257132168796771975167")
    );
}

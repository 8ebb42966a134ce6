use rsi_service::decimal::{chars_of, digit_of, parse_price, PRICE_DECIMALS, PRICE_SCALE};

const UNIT: i64 = 1_000_000_000_000;

#[test]
fn scale_is_ten_to_the_decimals() {
    assert_eq!(PRICE_SCALE, 10i64.pow(PRICE_DECIMALS));
    assert_eq!(PRICE_SCALE, UNIT);
}

#[test]
fn chars_of_keeps_every_character_in_order() {
    assert_eq!(chars_of("a1é"), vec!['a', '1', 'é']);
    assert_eq!(chars_of(""), Vec::<char>::new());
}

#[test]
fn digit_of_knows_the_ten_digits_only() {
    assert_eq!(digit_of('0'), Some(0));
    assert_eq!(digit_of('7'), Some(7));
    assert_eq!(digit_of('9'), Some(9));
    assert_eq!(digit_of('/'), None);
    assert_eq!(digit_of(':'), None);
    assert_eq!(digit_of('a'), None);
    assert_eq!(digit_of('٣'), None);
}

#[test]
fn plain_decimals_are_read_exactly() {
    assert_eq!(parse_price("1.5"), Some(1_500_000_000_000));
    assert_eq!(parse_price("2"), Some(2 * UNIT));
    assert_eq!(parse_price("0"), Some(0));
    assert_eq!(parse_price("15"), Some(15 * UNIT));
    assert_eq!(parse_price("0.000000000001"), Some(1));
    assert_eq!(parse_price("123.456"), Some(123_456_000_000_000));
    assert_eq!(parse_price("00000000000000000000000000001.50"), Some(1_500_000_000_000));
}

#[test]
fn signs_are_read() {
    assert_eq!(parse_price("+3.25"), Some(3_250_000_000_000));
    assert_eq!(parse_price("-3.25"), Some(-3_250_000_000_000));
    assert_eq!(parse_price("-0"), Some(0));
    assert_eq!(parse_price("-0.0"), Some(0));
}

#[test]
fn the_point_may_stand_first_or_last() {
    assert_eq!(parse_price(".5"), Some(500_000_000_000));
    assert_eq!(parse_price("5."), Some(5 * UNIT));
    assert_eq!(parse_price("-.25"), Some(-250_000_000_000));
}

#[test]
fn exponents_move_the_point() {
    assert_eq!(parse_price("1e-07"), Some(100_000));
    assert_eq!(parse_price("1e-7"), Some(100_000));
    assert_eq!(parse_price("1.234e-05"), Some(12_340_000));
    assert_eq!(parse_price("1e3"), Some(1000 * UNIT));
    assert_eq!(parse_price("1E3"), Some(1000 * UNIT));
    assert_eq!(parse_price("1e+03"), Some(1000 * UNIT));
    assert_eq!(parse_price("12.5e1"), Some(125 * UNIT));
    assert_eq!(parse_price("12.5e-1"), Some(1_250_000_000_000));
    assert_eq!(parse_price("123456789012345678901234567890e-30"), Some(123_456_789_012));
    assert_eq!(parse_price("0.000000000000000000001e21"), Some(UNIT));
}

#[test]
fn digits_below_a_tick_are_cut_off_toward_zero() {
    assert_eq!(parse_price("0.0000000000019"), Some(1));
    assert_eq!(parse_price("-0.0000000000019"), Some(-1));
    assert_eq!(parse_price("0.0000000000009"), Some(0));
    assert_eq!(parse_price("-0.0000000000009"), Some(0));
    assert_eq!(parse_price("1e-13"), Some(0));
    assert_eq!(parse_price("9e-13"), Some(0));
    assert_eq!(parse_price("1.9999999999999"), Some(1_999_999_999_999));
}

#[test]
fn the_range_of_ticks_is_met_exactly() {
    assert_eq!(parse_price("9223372.036854775807"), Some(i64::MAX));
    assert_eq!(parse_price("9223372.0368547758079"), Some(i64::MAX));
    assert_eq!(parse_price("9223372.036854775808"), None);
    assert_eq!(parse_price("-9223372.036854775808"), Some(i64::MIN));
    assert_eq!(parse_price("-9223372.0368547758089"), Some(i64::MIN));
    assert_eq!(parse_price("-9223372.036854775809"), None);
    assert_eq!(parse_price("9223373"), None);
    assert_eq!(parse_price("99999999999999999999999999"), None);
}

#[test]
fn huge_exponents_overflow_or_vanish() {
    assert_eq!(parse_price("1e400"), None);
    assert_eq!(parse_price("1e7"), None);
    assert_eq!(parse_price("9e6"), Some(9_000_000 * UNIT));
    assert_eq!(parse_price("0e400"), Some(0));
    assert_eq!(parse_price("0.000e99999999999999999999999999999999999999999"), Some(0));
    assert_eq!(parse_price("1e99999999999999999999999999999999999999999"), None);
    assert_eq!(parse_price("1e-99999999999999999999999999999999999999999"), Some(0));
    assert_eq!(parse_price("-7e-99999999999999999999999999999999999999999"), Some(0));
    assert_eq!(parse_price("1e36893488147419103232"), None);
    assert_eq!(parse_price("1e-36893488147419103232"), Some(0));
}

#[test]
fn other_shapes_are_no_decimal() {
    for text in [
        "", "+", "-", ".", "+.", "e5", ".e5", "1e", "1e+", "1e-", "1e5x", "1.2.3", "1..2", " 1",
        "1 ", "1,5", "abc", "1a", "--1", "+-1", "1e5.0", "0x10", "1_000", "inf", "-inf",
        "infinity", "NaN", "nan", "٣", "1٣", "1e٣",
    ] {
        assert_eq!(parse_price(text), None, "{:?}", text);
    }
}

#[test]
fn ticks_agree_with_the_value_of_the_text() {
    let mut x: u64 = 0x1234_5678_9abc_def1;
    for _ in 0..500 {
        x ^= x << 13;
        x ^= x >> 7;
        x ^= x << 17;
        let whole = x % 1_000_000;
        let fraction = (x >> 20) % 1_000_000_000;
        let exponent = (x >> 50) as i32 % 7 - 3;
        let sign = if x & (1 << 63) == 0 { "" } else { "-" };
        let text = format!("{}{}.{:09}e{}", sign, whole, fraction, exponent);
        let value: f64 = text.parse().expect("a decimal text");
        match parse_price(&text) {
            Some(ticks) => {
                let units = ticks as f64 / UNIT as f64;
                assert!((units - value).abs() <= value.abs() * 1e-12 + 1e-12, "{}", text);
            }
            None => assert!(value.abs() >= 9_223_372.0, "{}", text),
        }
    }
}

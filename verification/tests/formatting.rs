use raceday::text::{fmt_average, fmt_best_time, fmt_thousandths, i64_to_string, u64_to_string};
use raceday::ranking::lane_name_of;

#[test]
fn decimal_rendering() {
    assert_eq!(u64_to_string(0), "0");
    assert_eq!(u64_to_string(7), "7");
    assert_eq!(u64_to_string(12), "12");
    assert_eq!(u64_to_string(100500), "100500");
    assert_eq!(u64_to_string(u64::MAX), "18446744073709551615");
}

#[test]
fn signed_rendering() {
    assert_eq!(i64_to_string(0), "0");
    assert_eq!(i64_to_string(42), "42");
    assert_eq!(i64_to_string(-5), "-5");
    assert_eq!(i64_to_string(i64::MIN), "-9223372036854775808");
}

#[test]
fn time_rendering_three_decimals() {
    assert_eq!(fmt_thousandths(31800), "31.800");
    assert_eq!(fmt_thousandths(32500), "32.500");
    assert_eq!(fmt_thousandths(5), "0.005");
    assert_eq!(fmt_thousandths(1000), "1.000");
    assert_eq!(fmt_thousandths(0), "0.000");
}

#[test]
fn best_time_placeholder() {
    assert_eq!(fmt_best_time(None), "0.000");
    assert_eq!(fmt_best_time(Some(29750)), "29.750");
}

#[test]
fn average_one_decimal_with_comma() {
    assert_eq!(fmt_average(18, 2), "9,0");
    assert_eq!(fmt_average(0, 0), "0,0");
    assert_eq!(fmt_average(7, 2), "3,5");
    assert_eq!(fmt_average(1, 3), "0,3");
    assert_eq!(fmt_average(2, 3), "0,7");
    assert_eq!(fmt_average(50, 1), "50,0");
}

#[test]
fn lane_names_cover_eight_slots() {
    assert_eq!(lane_name_of(1), "Vermelha");
    assert_eq!(lane_name_of(2), "Branca");
    assert_eq!(lane_name_of(3), "Verde");
    assert_eq!(lane_name_of(4), "Laranja");
    assert_eq!(lane_name_of(5), "Azul");
    assert_eq!(lane_name_of(6), "Amarela");
    assert_eq!(lane_name_of(7), "Roxa");
    assert_eq!(lane_name_of(8), "Preta");
    assert_eq!(lane_name_of(9), "---");
    assert_eq!(lane_name_of(0), "---");
}

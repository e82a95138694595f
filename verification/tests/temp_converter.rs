use rust_exercises::temp_converter::{parse_conversion, parse_u8, Conversion};

#[test]
fn u8_parse_matches_std() {
    for s in ["0", "1", "+2", "007", "255", "256", "-1", "+", "", "1a", " 1", "999999", "+0255"] {
        assert_eq!(parse_u8(s), s.parse::<u8>().ok(), "input {:?}", s);
    }
}

#[test]
fn menu_choice() {
    assert_eq!(parse_conversion(" 1\n"), Some(Conversion::CelsiusToFahrenheit));
    assert_eq!(parse_conversion("02"), Some(Conversion::FahrenheitToCelsius));
    assert_eq!(parse_conversion("3"), None);
    assert_eq!(parse_conversion("x"), None);
    assert_eq!(Conversion::CelsiusToFahrenheit.unit(), "°F");
    assert_eq!(Conversion::FahrenheitToCelsius.unit(), "°C");
    assert_eq!(Conversion::from_choice(2), Some(Conversion::FahrenheitToCelsius));
    assert_eq!(Conversion::from_choice(0), None);
}

#[test]
fn decimal_text_reads_back_as_u8() {
    for n in 0..=255u8 {
        assert_eq!(parse_u8(&rust_exercises::text::u64_to_decimal(n as u64)), Some(n));
    }
}

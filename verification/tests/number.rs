use svgnum::Error;
use svgnum::Number;
use svgnum::NumberListParser;
use svgnum::Stream;

fn parse_ok(text: &str) -> f64 {
    let mut s = Stream::from(text);
    let n = s.parse_number().unwrap();
    f64::from_bits(n.bits())
}

fn parse_err(text: &str) -> Error {
    let mut s = Stream::from(text);
    s.parse_number().unwrap_err()
}

#[test]
fn parse_1() {
    assert_eq!(parse_ok("0"), 0.0);
}

#[test]
fn parse_2() {
    assert_eq!(parse_ok("1"), 1.0);
}

#[test]
fn parse_3() {
    assert_eq!(parse_ok("-1"), -1.0);
}

#[test]
fn parse_4() {
    assert_eq!(parse_ok(" -1 "), -1.0);
}

#[test]
fn parse_5() {
    assert_eq!(parse_ok("  1  "), 1.0);
}

#[test]
fn parse_6() {
    assert_eq!(parse_ok(".4"), 0.4);
}

#[test]
fn parse_7() {
    assert_eq!(parse_ok("-.4"), -0.4);
}

#[test]
fn parse_8() {
    assert_eq!(parse_ok("-.4text"), -0.4);
}

#[test]
fn parse_9() {
    assert_eq!(parse_ok("-.01 text"), -0.01);
}

#[test]
fn parse_10() {
    assert_eq!(parse_ok("-.01 4"), -0.01);
}

#[test]
fn parse_11() {
    assert_eq!(parse_ok(".0000000000008"), 0.0000000000008);
}

#[test]
fn parse_12() {
    assert_eq!(parse_ok("1000000000000"), 1000000000000.0);
}

#[test]
fn parse_13() {
    assert_eq!(parse_ok("123456.123456"), 123456.123456);
}

#[test]
fn parse_14() {
    assert_eq!(parse_ok("+10"), 10.0);
}

#[test]
fn parse_15() {
    assert_eq!(parse_ok("1e2"), 100.0);
}

#[test]
fn parse_16() {
    assert_eq!(parse_ok("1e+2"), 100.0);
}

#[test]
fn parse_17() {
    assert_eq!(parse_ok("1E2"), 100.0);
}

#[test]
fn parse_18() {
    assert_eq!(parse_ok("1e-2"), 0.01);
}

#[test]
fn parse_19() {
    assert_eq!(parse_ok("1ex"), 1.0);
}

#[test]
fn parse_20() {
    assert_eq!(parse_ok("1em"), 1.0);
}

#[test]
fn parse_21() {
    assert_eq!(parse_ok("12345678901234567890"), 12345678901234567000.0);
}

#[test]
fn parse_22() {
    assert_eq!(parse_ok("0."), 0.0);
}

#[test]
fn parse_23() {
    assert_eq!(parse_ok("1.3e-2"), 0.013);
}

#[test]
fn parse_err_1() {
    assert_eq!(parse_err("q"), Error::InvalidNumber(1));
}

#[test]
fn parse_err_2() {
    assert_eq!(parse_err(""), Error::InvalidNumber(1));
}

#[test]
fn parse_err_3() {
    assert_eq!(parse_err("-"), Error::InvalidNumber(1));
}

#[test]
fn parse_err_4() {
    assert_eq!(parse_err("+"), Error::InvalidNumber(1));
}

#[test]
fn parse_err_5() {
    assert_eq!(parse_err("-q"), Error::InvalidNumber(1));
}

#[test]
fn parse_err_6() {
    assert_eq!(parse_err("."), Error::InvalidNumber(1));
}

#[test]
fn parse_err_7() {
    assert_eq!(parse_err("99999999e99999999"), Error::InvalidNumber(1));
}

#[test]
fn parse_err_8() {
    assert_eq!(parse_err("-99999999e99999999"), Error::InvalidNumber(1));
}

#[test]
fn parse_err_bare_exponent() {
    assert_eq!(parse_err("1e"), Error::InvalidNumber(1));
    assert_eq!(parse_err("1e+"), Error::InvalidNumber(1));
    assert_eq!(parse_err("1e-"), Error::InvalidNumber(1));
    assert_eq!(parse_err("1eq"), Error::InvalidNumber(1));
    assert_eq!(parse_err("1e+q"), Error::InvalidNumber(1));
}

#[test]
fn parse_overflowing_exponent_is_not_infinite() {
    assert_eq!(parse_err("1e309"), Error::InvalidNumber(1));
    assert_eq!(parse_err("-1e309"), Error::InvalidNumber(1));
    assert_eq!(parse_ok("1e-999"), 0.0);
}

#[test]
fn parse_error_position_after_whitespace() {
    // The leading whitespace is not charged against the error position.
    assert_eq!(parse_err("  q"), Error::InvalidNumber(3));
}

#[test]
fn unit_suffix_is_left_unconsumed() {
    let mut s = Stream::from("1ex");
    let n = s.parse_number().unwrap();
    assert_eq!(f64::from_bits(n.bits()), 1.0);
    assert_eq!(s.pos(), 1);

    let mut s = Stream::from("1em");
    let n = s.parse_number().unwrap();
    assert_eq!(f64::from_bits(n.bits()), 1.0);
    assert_eq!(s.pos(), 1);

    // A consumable exponent is consumed in full.
    let mut s = Stream::from("1e2x");
    let n = s.parse_number().unwrap();
    assert_eq!(f64::from_bits(n.bits()), 100.0);
    assert_eq!(s.pos(), 3);
}

#[test]
fn from_str_trims_whitespace() {
    let n = Number::from_str(" \t1.5\r\n ").unwrap();
    assert_eq!(f64::from_bits(n.bits()), 1.5);
}

#[test]
fn from_str_rejects_trailing_data() {
    assert_eq!(Number::from_str("1 x").unwrap_err(), Error::UnexpectedData(3));
    assert_eq!(Number::from_str("1ex").unwrap_err(), Error::UnexpectedData(2));
    assert_eq!(Number::from_str("1 2").unwrap_err(), Error::UnexpectedData(3));
}

#[test]
fn from_str_reports_invalid_number() {
    assert_eq!(Number::from_str("").unwrap_err(), Error::InvalidNumber(1));
    assert_eq!(Number::from_str(" .").unwrap_err(), Error::InvalidNumber(2));
}

#[test]
fn error_positions_count_characters_not_bytes() {
    // "\u{e9}" takes two bytes but is one character.
    assert_eq!(
        Number::from_str("1 \u{e9}").unwrap_err(),
        Error::UnexpectedData(3)
    );
    let s = Stream::from("\u{e9}\u{e9}x");
    assert_eq!(s.calc_char_pos_at(4), 3);
    assert_eq!(s.calc_char_pos_at(0), 1);
}

#[test]
fn number_list_parser_doc() {
    let mut p = NumberListParser::from("10, 20 -50");
    assert_eq!(f64::from_bits(p.next().unwrap().unwrap().bits()), 10.0);
    assert_eq!(f64::from_bits(p.next().unwrap().unwrap().bits()), 20.0);
    assert_eq!(f64::from_bits(p.next().unwrap().unwrap().bits()), -50.0);
    assert_eq!(p.next().is_none(), true);
}

#[test]
fn number_list_stops_after_error() {
    let mut p = NumberListParser::from("10,,20");
    assert_eq!(f64::from_bits(p.next().unwrap().unwrap().bits()), 10.0);
    assert_eq!(p.next().unwrap().unwrap_err(), Error::InvalidNumber(4));
    // After one error the sequence yields nothing, forever.
    assert!(p.next().is_none());
    assert!(p.next().is_none());
}

#[test]
fn number_list_trailing_whitespace_terminates() {
    let mut p = NumberListParser::from("1 ");
    assert_eq!(f64::from_bits(p.next().unwrap().unwrap().bits()), 1.0);
    assert!(p.next().is_none());
}

#[test]
fn number_list_trailing_comma_is_an_error() {
    // The comma promises another entry; its absence is an invalid number
    // at the position where the entry was expected.
    let mut p = NumberListParser::from("1, ");
    assert_eq!(f64::from_bits(p.next().unwrap().unwrap().bits()), 1.0);
    assert_eq!(p.next().unwrap().unwrap_err(), Error::InvalidNumber(4));
    assert!(p.next().is_none());
}

#[test]
fn parse_list_number_at_end() {
    let mut s = Stream::from("");
    assert_eq!(s.parse_list_number().unwrap_err(), Error::UnexpectedEndOfStream);
}

#[test]
fn parse_list_number_consumes_separator() {
    let mut s = Stream::from("1 , 2");
    let n = s.parse_list_number().unwrap();
    assert_eq!(f64::from_bits(n.bits()), 1.0);
    // The whitespace before the comma and the comma itself are consumed;
    // whitespace after it is taken by the next number's own scan.
    assert_eq!(s.pos(), 3);
    let n = s.parse_list_number().unwrap();
    assert_eq!(f64::from_bits(n.bits()), 2.0);
    assert!(s.at_end());
}

#[test]
fn round_trip_formats_and_reparses() {
    let values = [
        0.0,
        -0.0,
        1.0,
        -1.5,
        0.1,
        123456.123456,
        3.141592653589793,
        1e300,
        -1e-300,
        5e-324,
        f64::MAX,
        f64::MIN_POSITIVE,
        -f64::MAX,
    ];
    for v in values {
        let text = format!("{}", v);
        let n = Number::from_str(&text).unwrap();
        assert_eq!(n.bits(), v.to_bits(), "round trip of {}", text);
    }
}

#[test]
fn from_bits_accepts_only_finite_values() {
    assert!(Number::from_bits(f64::NAN.to_bits()).is_none());
    assert!(Number::from_bits(f64::INFINITY.to_bits()).is_none());
    assert!(Number::from_bits(f64::NEG_INFINITY.to_bits()).is_none());
    let n = Number::from_bits(2.5f64.to_bits()).unwrap();
    assert_eq!(f64::from_bits(n.bits()), 2.5);
}

#[test]
fn cursor_basics() {
    let mut s = Stream::from("0 ,9");
    assert_eq!(s.pos(), 0);
    assert!(!s.at_end());
    assert_eq!(s.curr_byte().unwrap(), 48);
    assert_eq!(s.next_byte().unwrap(), 32);
    s.advance(1);
    s.skip_spaces();
    assert_eq!(s.curr_byte().unwrap(), 44);
    s.parse_list_separator();
    assert_eq!(s.pos(), 3);
    s.skip_digits();
    assert!(s.at_end());
    assert_eq!(s.curr_byte().unwrap_err(), Error::UnexpectedEndOfStream);
    assert_eq!(s.slice_back(2), vec![44u8, 57u8]);
    s.jump_to_end();
    assert_eq!(s.pos(), 4);
}

#[test]
fn number_equality_is_by_bits() {
    let a = Number::from_str("1.5").unwrap();
    let b = Number::from_str("1.50").unwrap();
    assert_eq!(a, b);
    let c = Number::from_str("2.5").unwrap();
    assert_ne!(a, c);
}

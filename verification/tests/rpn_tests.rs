use rpn::{rpn, RpnError};

#[test]
fn add_two_numbers() {
    let r = rpn("3 4 +").unwrap();
    assert_eq!(r.as_str(), "7");
    assert_eq!(r.as_i64(), Some(7));
}

#[test]
fn sub_two_numbers() {
    let r = rpn("10 3 -").unwrap();
    assert_eq!(r.as_str(), "7");
    assert_eq!(r.as_i64(), Some(7));
}

#[test]
fn mul_left_to_right_ordering() {
    let r = rpn("2 3 4 + *").unwrap();
    assert_eq!(r.as_str(), "14");
    assert_eq!(r.as_i64(), Some(14));
}

#[test]
fn division_by_zero_is_fatal_arithmetic() {
    assert!(matches!(rpn("7 0 /"), Err(RpnError::Unknown)));
}

#[test]
fn modulo_by_zero_is_fatal_arithmetic() {
    assert!(matches!(rpn("7 0 %"), Err(RpnError::Unknown)));
}

#[test]
fn leftover_operands() {
    assert!(matches!(rpn("1 2 3 +"), Err(RpnError::NotEnoughOperators)));
}

#[test]
fn lone_operator() {
    assert!(matches!(rpn("+"), Err(RpnError::NotEnoughOperands)));
}

#[test]
fn empty_input() {
    assert!(matches!(rpn(""), Err(RpnError::NotEnoughOperands)));
}

#[test]
fn whitespace_only_input() {
    assert!(matches!(rpn(" \t \n "), Err(RpnError::NotEnoughOperands)));
}

#[test]
fn malformed_token() {
    assert!(matches!(rpn("abc"), Err(RpnError::FailedToParseNumber)));
}

#[test]
fn leading_plus_is_rejected() {
    assert!(matches!(rpn("+5"), Err(RpnError::FailedToParseNumber)));
}

#[test]
fn doubled_sign_is_rejected() {
    assert!(matches!(rpn("--5"), Err(RpnError::FailedToParseNumber)));
}

#[test]
fn infix_notation_is_rejected() {
    assert!(matches!(rpn("1-2"), Err(RpnError::FailedToParseNumber)));
}

#[test]
fn lone_minus_is_an_operator() {
    assert!(matches!(rpn("-"), Err(RpnError::NotEnoughOperands)));
}

#[test]
fn operator_with_one_operand() {
    assert!(matches!(rpn("1 +"), Err(RpnError::NotEnoughOperands)));
}

#[test]
fn single_literal_evaluates_to_itself() {
    let r = rpn("42").unwrap();
    assert_eq!(r.as_str(), "42");
    assert_eq!(r.as_i64(), Some(42));
}

#[test]
fn negative_literal() {
    let r = rpn("-12 5 +").unwrap();
    assert_eq!(r.as_str(), "-7");
    assert_eq!(r.as_i64(), Some(-7));
}

#[test]
fn negative_zero_is_canonical_zero() {
    let r = rpn("-0").unwrap();
    assert_eq!(r.as_str(), "0");
    assert_eq!(r.as_i64(), Some(0));
}

#[test]
fn leading_zeros_are_read_as_decimal() {
    let r = rpn("007 08 +").unwrap();
    assert_eq!(r.as_str(), "15");
    assert_eq!(r.as_i64(), Some(15));
}

#[test]
fn multiplication_by_zero() {
    let r = rpn("12 0 *").unwrap();
    assert_eq!(r.as_str(), "0");
    assert_eq!(r.as_i64(), Some(0));
}

#[test]
fn division_truncates_toward_zero() {
    assert_eq!(rpn("7 2 /").unwrap().as_str(), "3");
    assert_eq!(rpn("-7 2 /").unwrap().as_str(), "-3");
    assert_eq!(rpn("7 -2 /").unwrap().as_str(), "-3");
    assert_eq!(rpn("-7 -2 /").unwrap().as_str(), "3");
}

#[test]
fn remainder_follows_dividend_sign() {
    assert_eq!(rpn("7 2 %").unwrap().as_str(), "1");
    assert_eq!(rpn("-7 2 %").unwrap().as_str(), "-1");
    assert_eq!(rpn("7 -2 %").unwrap().as_str(), "1");
    assert_eq!(rpn("-7 -2 %").unwrap().as_str(), "-1");
}

#[test]
fn truncating_division_law_on_samples() {
    let pairs = [(7i64, 2i64), (-7, 2), (7, -2), (-7, -2), (100, 9), (-100, 9), (5, 7), (-5, 7)];
    for (a, b) in pairs {
        let e = format!("{} {} / {} * {} {} % +", a, b, b, a, b);
        let r = rpn(&e).unwrap();
        assert_eq!(r.as_i64(), Some(a));
    }
}

#[test]
fn mixed_whitespace_separators() {
    let r = rpn(" 3\t4\n+ \u{000C}\r").unwrap();
    assert_eq!(r.as_str(), "7");
}

#[test]
fn vertical_tab_is_not_a_separator() {
    assert!(matches!(rpn("3\u{000B}4"), Err(RpnError::FailedToParseNumber)));
}

#[test]
fn non_ascii_token_is_rejected() {
    assert!(matches!(rpn("três 4 +"), Err(RpnError::FailedToParseNumber)));
}

#[test]
fn machine_view_at_the_i64_boundaries() {
    assert_eq!(rpn("9223372036854775807").unwrap().as_i64(), Some(i64::MAX));
    assert_eq!(rpn("-9223372036854775808").unwrap().as_i64(), Some(i64::MIN));
    assert_eq!(rpn("9223372036854775808").unwrap().as_i64(), None);
    assert_eq!(rpn("-9223372036854775809").unwrap().as_i64(), None);
}

#[test]
fn big_value_round_trips_through_its_string() {
    let r = rpn("9223372036854775807 1 +").unwrap();
    assert_eq!(r.as_str(), "9223372036854775808");
    assert_eq!(r.as_i64(), None);
    let again = rpn(r.as_str()).unwrap();
    assert_eq!(again.as_str(), r.as_str());
    assert_eq!(again.as_i64(), None);
}

#[test]
fn big_arithmetic_is_exact() {
    let r = rpn("99999999999999999999999999 1 +").unwrap();
    assert_eq!(r.as_str(), "100000000000000000000000000");
    assert_eq!(r.as_i64(), None);
    let product = rpn("123456789012345678901234567890 1000000000000000000000 *").unwrap();
    assert_eq!(product.as_str(), "123456789012345678901234567890000000000000000000000");
}

#[test]
fn huge_negative_quotient() {
    let r = rpn("-123456789012345678901234567890 100000000000 /").unwrap();
    assert_eq!(r.as_str(), "-1234567890123456789");
    assert_eq!(r.as_i64(), Some(-1234567890123456789));
}

#[test]
fn evaluation_is_idempotent() {
    let texts = ["3 4 +", "10 3 -", "2 3 4 + *", "9223372036854775808", "-7 2 %"];
    for t in texts {
        let r1 = rpn(t).unwrap();
        let r2 = rpn(t).unwrap();
        assert_eq!(r1.as_str(), r2.as_str());
        assert_eq!(r1.as_i64(), r2.as_i64());
    }
    assert!(matches!(rpn("7 0 /"), Err(RpnError::Unknown)));
    assert!(matches!(rpn("7 0 /"), Err(RpnError::Unknown)));
}

#[test]
fn error_short_circuits_on_first_bad_token() {
    assert!(matches!(rpn("1 2 x +"), Err(RpnError::FailedToParseNumber)));
    assert!(matches!(rpn("1 + 2 3"), Err(RpnError::NotEnoughOperands)));
}

#[test]
fn deep_stack_program() {
    let r = rpn("1 2 3 4 5 + + + +").unwrap();
    assert_eq!(r.as_str(), "15");
}

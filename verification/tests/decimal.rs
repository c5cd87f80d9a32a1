use referral_discount_function::decimal::Decimal;

fn dec(s: &str) -> Decimal {
    Decimal::parse(s).unwrap()
}

#[test]
fn parse_accepts_decimal_numerals() {
    for s in ["0", "15", "15.0", "-0.5", "+7", "7.", ".25", "-.5", "+.5", "007.250", "0.0"] {
        assert!(Decimal::parse(s).is_some(), "{}", s);
        assert!(s.parse::<f64>().is_ok(), "{}", s);
    }
}

#[test]
fn parse_rejects_everything_else() {
    for s in [
        "", "+", "-", ".", "-.", "+-1", "1.2.3", "1,5", " 1", "1 ", "abc", "1a", "a1", "1e2",
        "inf", "NaN", "--1", "1-", "1_000", "١٥", "1.5%", "0x10",
    ] {
        assert!(Decimal::parse(s).is_none(), "{}", s);
    }
}

#[test]
fn to_text_writes_the_digits_back() {
    assert_eq!(dec("15").to_text(), "15");
    assert_eq!(dec("15.0").to_text(), "15.0");
    assert_eq!(dec("-0.50").to_text(), "-0.50");
    assert_eq!(dec("+7").to_text(), "7");
    assert_eq!(dec("7.").to_text(), "7");
    assert_eq!(dec(".25").to_text(), ".25");
    assert_eq!(dec("007").to_text(), "007");
    assert_eq!(Decimal::ten().to_text(), "10.0");
    assert_eq!(Decimal::zero().to_text(), "0.0");
}

#[test]
fn to_text_reads_back_as_the_same_number() {
    for s in ["0", "15", "15.0", "-0.5", "+7", "7.", ".25", "-.5", "007.250", "123456789.987654321"] {
        let d = dec(s);
        assert_eq!(Decimal::parse(&d.to_text()), Some(d.clone()));
        assert_eq!(d.to_text().parse::<f64>().unwrap(), s.parse::<f64>().unwrap());
    }
}

#[test]
fn sign_and_zero_are_told() {
    assert!(dec("-1").is_negative());
    assert!(dec("-0").is_negative());
    assert!(!dec("1").is_negative());
    assert!(!dec("+1").is_negative());
    assert!(dec("0").is_zero());
    assert!(dec("-0.000").is_zero());
    assert!(dec(".0").is_zero());
    assert!(!dec("0.001").is_zero());
    assert!(!dec("100").is_zero());
}

#[test]
fn le_orders_by_value() {
    let ordered = ["-100", "-7.5", "-7.49", "-0.001", "0", "0.001", "0.01", "0.5", "1", "9.99", "10", "10.01", "100"];
    for (i, a) in ordered.iter().enumerate() {
        for (j, b) in ordered.iter().enumerate() {
            assert_eq!(dec(a).le(&dec(b)), i <= j, "{} <= {}", a, b);
            assert_eq!(
                dec(a).le(&dec(b)),
                a.parse::<f64>().unwrap() <= b.parse::<f64>().unwrap()
            );
        }
    }
}

#[test]
fn le_looks_through_the_way_a_number_is_written() {
    assert!(dec("1.0").le(&dec("1")) && dec("1").le(&dec("1.0")));
    assert!(dec("001.500").same_value(&dec("1.5")));
    assert!(dec("-0").same_value(&dec("0")));
    assert!(dec("0").le(&dec("-0.0")));
    assert!(dec(".5").same_value(&dec("0.50")));
    assert!(!dec("1.5").same_value(&dec("1.50001")));
    assert!(dec("99999999999999999999999999999.1").le(&dec("99999999999999999999999999999.2")));
    assert!(!dec("99999999999999999999999999999.2").le(&dec("99999999999999999999999999999.1")));
    assert!(dec("9").le(&dec("10")));
    assert!(!dec("10").le(&dec("9.999")));
}

#[test]
fn min_takes_the_smaller_value() {
    assert_eq!(dec("50").min(dec("30")), dec("30"));
    assert_eq!(dec("30").min(dec("50")), dec("30"));
    assert_eq!(dec("-1").min(dec("0")), dec("-1"));
    assert_eq!(dec("0.5").min(dec("0.25")), dec("0.25"));
    assert_eq!(dec("2.50").min(dec("10")), dec("2.50"));
}

#[test]
fn min_of_equal_values_is_the_first() {
    assert_eq!(dec("30.0").min(dec("30")), dec("30.0"));
    assert_eq!(dec("30").min(dec("30.0")), dec("30"));
}

#[test]
fn rounded_text_rounds_half_to_even() {
    assert_eq!(dec("0.5").rounded_text(), "0");
    assert_eq!(dec("1.5").rounded_text(), "2");
    assert_eq!(dec("2.5").rounded_text(), "2");
    assert_eq!(dec("3.5").rounded_text(), "4");
    assert_eq!(dec("2.50").rounded_text(), "2");
    assert_eq!(dec("2.5000001").rounded_text(), "3");
    assert_eq!(dec("2.4999999").rounded_text(), "2");
    assert_eq!(dec("12.25").rounded_text(), "12");
    assert_eq!(dec("12.75").rounded_text(), "13");
}

#[test]
fn rounded_text_carries_into_new_digits() {
    assert_eq!(dec("9.5").rounded_text(), "10");
    assert_eq!(dec("99.5").rounded_text(), "100");
    assert_eq!(dec("999.9").rounded_text(), "1000");
    assert_eq!(dec("199.5").rounded_text(), "200");
    assert_eq!(dec("0.9").rounded_text(), "1");
    assert_eq!(dec(".9").rounded_text(), "1");
    assert_eq!(dec(".4").rounded_text(), "0");
}

#[test]
fn rounded_text_drops_leading_zeros_and_keeps_the_sign() {
    assert_eq!(dec("007").rounded_text(), "7");
    assert_eq!(dec("000").rounded_text(), "0");
    assert_eq!(dec("0099.5").rounded_text(), "100");
    assert_eq!(dec("-7.5").rounded_text(), "-8");
    assert_eq!(dec("-0.4").rounded_text(), "-0");
    assert_eq!(dec("-0").rounded_text(), "-0");
    assert_eq!(dec("+15").rounded_text(), "15");
    assert_eq!(dec("15").rounded_text(), "15");
    assert_eq!(Decimal::ten().rounded_text(), "10");
    assert_eq!(Decimal::zero().rounded_text(), "0");
}

#[test]
fn rounded_text_agrees_with_binary_floats() {
    for s in [
        "0", "0.5", "1.5", "2.5", "3.5", "0.49", "0.51", "9.5", "10.5", "99.5", "100.25",
        "15", "15.0", "12.5", "13.5", "-0.4", "-0.5", "-1.5", "-2.5", "-7.75", "0.999",
        "1234567.5", "1234568.5", "250", "33.333", "66.667", ".5", "7.",
    ] {
        let x = s.parse::<f64>().unwrap();
        assert_eq!(dec(s).rounded_text(), format!("{:.0}", x), "{}", s);
    }
}

#[test]
fn defaults_are_ten_and_zero() {
    assert_eq!(Decimal::ten(), dec("10.0"));
    assert_eq!(Decimal::zero(), dec("0.0"));
    assert!(Decimal::ten().same_value(&dec("10")));
    assert!(Decimal::zero().is_zero());
}

#[test]
fn clone_is_the_same_decimal() {
    let d = dec("-12.340");
    assert_eq!(d.clone(), d);
    assert_eq!(d.clone().to_text(), "-12.340");
}

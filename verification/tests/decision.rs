use referral_discount_function::decimal::Decimal;
use referral_discount_function::decision::{
    build_operation, discount_value, DiscountKind, DiscountValue, SelectionStrategy,
};

fn dec(s: &str) -> Decimal {
    Decimal::parse(s).unwrap()
}

#[test]
fn kind_is_read_from_the_type() {
    assert_eq!(DiscountKind::from_text("percentage"), DiscountKind::Percentage);
    assert_eq!(DiscountKind::from_text(""), DiscountKind::Percentage);
    assert_eq!(DiscountKind::from_text("fixed_amount"), DiscountKind::FixedAmount);
    assert_eq!(DiscountKind::from_text("fixed"), DiscountKind::FixedAmount);
    assert_eq!(DiscountKind::from_text("PERCENTAGE"), DiscountKind::FixedAmount);
    assert_eq!(DiscountKind::from_text("percentage "), DiscountKind::FixedAmount);
    assert_eq!(DiscountKind::from_text("percent"), DiscountKind::FixedAmount);
}

#[test]
fn percentage_value_is_the_percentage_as_it_stands() {
    assert_eq!(
        discount_value(DiscountKind::Percentage, dec("250"), dec("30")),
        DiscountValue::Percentage(dec("250"))
    );
    assert_eq!(
        discount_value(DiscountKind::Percentage, dec("12.50"), dec("0")),
        DiscountValue::Percentage(dec("12.50"))
    );
}

#[test]
fn fixed_amount_value_is_capped_at_the_total() {
    assert_eq!(
        discount_value(DiscountKind::FixedAmount, dec("50"), dec("30")),
        DiscountValue::FixedAmount(dec("30"))
    );
    assert_eq!(
        discount_value(DiscountKind::FixedAmount, dec("29.99"), dec("30")),
        DiscountValue::FixedAmount(dec("29.99"))
    );
    assert_eq!(
        discount_value(DiscountKind::FixedAmount, dec("30.01"), dec("30")),
        DiscountValue::FixedAmount(dec("30"))
    );
    assert_eq!(
        discount_value(DiscountKind::FixedAmount, dec("5"), dec("0.0")),
        DiscountValue::FixedAmount(dec("0.0"))
    );
}

#[test]
fn operation_carries_message_value_and_code() {
    let op = build_operation(dec("15"), "percentage", dec("100"), "SAVE15".to_string());
    assert_eq!(op.message, "Referral Discount (15%)");
    assert_eq!(op.value, DiscountValue::Percentage(dec("15")));
    assert_eq!(op.associated_discount_code, Some("SAVE15".to_string()));
    assert_eq!(op.selection_strategy, SelectionStrategy::First);
    assert!(op.excluded_cart_line_ids.is_empty());
}

#[test]
fn operation_without_code_carries_none() {
    let op = build_operation(dec("15"), "", dec("100"), String::new());
    assert_eq!(op.value, DiscountValue::Percentage(dec("15")));
    assert_eq!(op.associated_discount_code, None);
}

#[test]
fn operation_message_shows_the_percentage_even_for_fixed_amounts() {
    let op = build_operation(dec("49.5"), "fixed_amount", dec("20"), String::new());
    assert_eq!(op.message, "Referral Discount (50%)");
    assert_eq!(op.value, DiscountValue::FixedAmount(dec("20")));
    let op = build_operation(dec("48.5"), "fixed_amount", dec("20"), String::new());
    assert_eq!(op.message, "Referral Discount (48%)");
}

use referral_discount_function::signals::{
    has_order_class, pick_first, read_decimal, read_text, DiscountClass,
};

#[test]
fn pick_first_takes_the_first_present_value() {
    assert_eq!(pick_first(vec![Some(1), Some(2), Some(3)]), Some(1));
    assert_eq!(pick_first(vec![None, Some(2), Some(3)]), Some(2));
    assert_eq!(pick_first(vec![None, None, Some(3)]), Some(3));
    assert_eq!(pick_first(vec![None, Some(2), None]), Some(2));
    assert_eq!(pick_first::<u8>(vec![None, None, None]), None);
    assert_eq!(pick_first::<u8>(vec![]), None);
}

#[test]
fn has_order_class_looks_for_order() {
    assert!(has_order_class(&vec![DiscountClass::Order]));
    assert!(has_order_class(&vec![DiscountClass::Product, DiscountClass::Order]));
    assert!(!has_order_class(&vec![DiscountClass::Product, DiscountClass::Shipping]));
    assert!(!has_order_class(&vec![]));
}

#[test]
fn read_decimal_treats_unreadable_as_missing() {
    assert!(read_decimal(&None).is_none());
    assert!(read_decimal(&Some("ten".to_string())).is_none());
    assert!(read_decimal(&Some("".to_string())).is_none());
    assert_eq!(read_decimal(&Some("12.5".to_string())).unwrap().to_text(), "12.5");
}

#[test]
fn read_text_keeps_the_text() {
    assert_eq!(read_text(&None), None);
    assert_eq!(read_text(&Some("".to_string())), Some("".to_string()));
    assert_eq!(read_text(&Some("fixed_amount".to_string())), Some("fixed_amount".to_string()));
}

#[test]
fn pick_first_hands_out_owned_values() {
    let picked = pick_first(vec![None, Some("second".to_string()), Some("third".to_string())]);
    assert_eq!(picked, Some("second".to_string()));
}

#[test]
fn read_decimal_reads_signed_and_pointed_numbers() {
    assert_eq!(read_decimal(&Some("-3".to_string())).unwrap().to_text(), "-3");
    assert_eq!(read_decimal(&Some("+3.50".to_string())).unwrap().to_text(), "3.50");
    assert_eq!(read_decimal(&Some(".5".to_string())).unwrap().to_text(), ".5");
    assert!(read_decimal(&Some("3.5.1".to_string())).is_none());
    assert!(read_decimal(&Some(" 3".to_string())).is_none());
}

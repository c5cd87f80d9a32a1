//! The discount resolver: from a cart's signals to at most one order discount.
//!
//! There are two strategies. The three-tier one merges the discount's own
//! settings, the cart's metafields and the cart's attributes, field by field.
//! The single-source one looks at a one-time code and the signals beside it.

use crate::decimal::Decimal;
use crate::decision::{
    build_operation, operation_of, DiscountDecision, OperationModel, SelectionStrategy,
    ValueModel,
};
use crate::numeral::{lemma_min_is_lower_bound, ten, Numeral};
use crate::signals::{
    has_order_class, lemma_first_present_of_three, lemma_first_present_of_two,
    numeral_of, pick_first, read_decimal, read_text, text_of, CartDiscountContext,
};
use vstd::prelude::*;
use vstd::string::*;

verus! {

/// The three-tier decision. Nothing is decided unless the discount may act on
/// the order. A discount applies where an app created it (its own settings
/// supply a percentage) or the cart carries a code that is not empty.
pub open spec fn three_tier_decision(input: CartDiscountContext) -> Option<OperationModel> {
    if input.eligible() && (input.is_app_discount() || input.resolved_code().len() > 0) {
        Some(
            operation_of(
                input.resolved_percentage(),
                input.resolved_type(),
                input.total(),
                input.resolved_code(),
            ),
        )
    } else {
        None
    }
}

/// The percentage beside a one-time code; `10.0` where there is none.
pub open spec fn one_time_percentage(input: CartDiscountContext) -> Numeral {
    match numeral_of(input.one_time_code.percentage) {
        Some(n) => n,
        None => ten(),
    }
}

/// The discount type beside a one-time code; `percentage` where there is none.
pub open spec fn one_time_type(input: CartDiscountContext) -> Seq<char> {
    match text_of(input.one_time_code.discount_type) {
        Some(t) => t,
        None => "percentage"@,
    }
}

/// The cart carries a one-time code that is not empty.
pub open spec fn has_one_time_code(input: CartDiscountContext) -> bool {
    match text_of(input.one_time_code.code) {
        Some(c) => c.len() > 0,
        None => false,
    }
}

/// The single-source decision. A discount applies where the discount may act
/// on the order and the cart carries a one-time code that is not empty. The
/// code only opens the way: no code goes with the operation.
pub open spec fn single_source_decision(input: CartDiscountContext) -> Option<OperationModel> {
    if input.eligible() && has_one_time_code(input) {
        Some(
            operation_of(
                one_time_percentage(input),
                one_time_type(input),
                input.total(),
                Seq::empty(),
            ),
        )
    } else {
        None
    }
}

/// Reads the cart total; `0.0` where its text spells no number.
pub fn read_total(input: &CartDiscountContext) -> (r: Decimal)
    ensures
        r@ == input.total(),
        r@.wf(),
{
    match Decimal::parse(input.cart_total.as_str()) {
        Some(d) => d,
        None => Decimal::zero(),
    }
}

/// Decides the order discount for a cart by the three-tier strategy.
pub fn cart_lines_discounts_generate_run(input: &CartDiscountContext) -> (r: DiscountDecision)
    ensures
        r@ == three_tier_decision(*input),
{
    if !has_order_class(&input.discount_classes) {
        return DiscountDecision::Empty;
    }
    let from_app = read_decimal(&input.app_discount.percentage);
    let from_metafield = read_decimal(&input.cart_metafield.percentage);
    let from_attribute = read_decimal(&input.cart_attribute.percentage);
    let is_app_discount = from_app.is_some();
    proof {
        lemma_first_present_of_three(from_app, from_metafield, from_attribute);
        lemma_first_present_of_three(
            numeral_of(input.app_discount.percentage),
            numeral_of(input.cart_metafield.percentage),
            numeral_of(input.cart_attribute.percentage),
        );
    }
    let percentage = match pick_first(vec![from_app, from_metafield, from_attribute]) {
        Some(d) => d,
        None => Decimal::ten(),
    };
    let type_from_app = read_text(&input.app_discount.discount_type);
    let type_from_metafield = read_text(&input.cart_metafield.discount_type);
    let type_from_attribute = read_text(&input.cart_attribute.discount_type);
    proof {
        lemma_first_present_of_three(type_from_app, type_from_metafield, type_from_attribute);
        lemma_first_present_of_three(
            text_of(input.app_discount.discount_type),
            text_of(input.cart_metafield.discount_type),
            text_of(input.cart_attribute.discount_type),
        );
    }
    let discount_type = match pick_first(
        vec![type_from_app, type_from_metafield, type_from_attribute],
    ) {
        Some(t) => t,
        None => String::from_str("percentage"),
    };
    let code_from_metafield = read_text(&input.cart_metafield.code);
    let code_from_attribute = read_text(&input.cart_attribute.code);
    proof {
        lemma_first_present_of_two(code_from_metafield, code_from_attribute);
        lemma_first_present_of_two(
            text_of(input.cart_metafield.code),
            text_of(input.cart_attribute.code),
        );
    }
    let code = match pick_first(vec![code_from_metafield, code_from_attribute]) {
        Some(c) => c,
        None => String::new(),
    };
    if !is_app_discount && code.as_str().is_empty() {
        return DiscountDecision::Empty;
    }
    let total = read_total(input);
    DiscountDecision::Operation(build_operation(percentage, discount_type.as_str(), total, code))
}

/// Decides the order discount for a cart by the single-source strategy.
pub fn one_time_code_discounts_generate_run(input: &CartDiscountContext) -> (r: DiscountDecision)
    ensures
        r@ == single_source_decision(*input),
{
    if !has_order_class(&input.discount_classes) {
        return DiscountDecision::Empty;
    }
    let present = match &input.one_time_code.code {
        Some(c) => !c.as_str().is_empty(),
        None => false,
    };
    if !present {
        return DiscountDecision::Empty;
    }
    let percentage = match read_decimal(&input.one_time_code.percentage) {
        Some(d) => d,
        None => Decimal::ten(),
    };
    let discount_type = match read_text(&input.one_time_code.discount_type) {
        Some(t) => t,
        None => String::from_str("percentage"),
    };
    let total = read_total(input);
    DiscountDecision::Operation(
        build_operation(percentage, discount_type.as_str(), total, String::new()),
    )
}

/// A discount that may not act on the order is never applied, whatever else
/// the cart carries.
pub proof fn lemma_ineligible_is_empty(input: CartDiscountContext)
    requires
        !input.eligible(),
    ensures
        three_tier_decision(input) is None,
        single_source_decision(input) is None,
{
}

/// The percentage comes from the first tier that supplies one: the discount's
/// own settings before the cart's metafields, those before the cart's
/// attributes, and `10.0` where no tier supplies one.
pub proof fn lemma_percentage_priority(input: CartDiscountContext)
    ensures
        input.resolved_percentage() == match numeral_of(input.app_discount.percentage) {
            Some(n) => n,
            None => match numeral_of(input.cart_metafield.percentage) {
                Some(n) => n,
                None => match numeral_of(input.cart_attribute.percentage) {
                    Some(n) => n,
                    None => ten(),
                },
            },
        },
{
    lemma_first_present_of_three(
        numeral_of(input.app_discount.percentage),
        numeral_of(input.cart_metafield.percentage),
        numeral_of(input.cart_attribute.percentage),
    );
}

/// The discount type comes from the first tier that supplies one, in the same
/// order, and is `percentage` where no tier supplies one. A type that is
/// there but empty counts as supplied.
pub proof fn lemma_type_priority(input: CartDiscountContext)
    ensures
        input.resolved_type() == match text_of(input.app_discount.discount_type) {
            Some(t) => t,
            None => match text_of(input.cart_metafield.discount_type) {
                Some(t) => t,
                None => match text_of(input.cart_attribute.discount_type) {
                    Some(t) => t,
                    None => "percentage"@,
                },
            },
        },
{
    lemma_first_present_of_three(
        text_of(input.app_discount.discount_type),
        text_of(input.cart_metafield.discount_type),
        text_of(input.cart_attribute.discount_type),
    );
}

/// The code comes from the cart's metafields, else from its attributes, and
/// is empty where neither has one.
pub proof fn lemma_code_priority(input: CartDiscountContext)
    ensures
        input.resolved_code() == match text_of(input.cart_metafield.code) {
            Some(c) => c,
            None => match text_of(input.cart_attribute.code) {
                Some(c) => c,
                None => Seq::<char>::empty(),
            },
        },
{
    lemma_first_present_of_two(
        text_of(input.cart_metafield.code),
        text_of(input.cart_attribute.code),
    );
}

/// The two ways to a discount do not depend on each other. A percentage in
/// the discount's own settings is enough, with or without a code. Without
/// it, a discount is applied exactly if the cart's code is not empty,
/// whether or not any tier supplies a percentage.
pub proof fn lemma_activation(input: CartDiscountContext)
    requires
        input.eligible(),
    ensures
        numeral_of(input.app_discount.percentage) is Some ==> three_tier_decision(input) is Some,
        numeral_of(input.app_discount.percentage) is None ==> (three_tier_decision(input) is Some
            <==> input.resolved_code().len() > 0),
{
}

/// A fixed amount is the smaller of the percentage's number and the cart
/// total, so it never exceeds the cart total.
pub proof fn lemma_fixed_amount_is_capped(input: CartDiscountContext, amount: Numeral)
    requires
        three_tier_decision(input) matches Some(op) && op.value == ValueModel::FixedAmount(amount),
    ensures
        amount == input.resolved_percentage().min(input.total()),
        amount.le(input.total()),
        amount.le(input.resolved_percentage()),
{
    lemma_min_is_lower_bound(input.resolved_percentage(), input.total());
}

/// The same cap holds for the single-source strategy.
pub proof fn lemma_one_time_fixed_amount_is_capped(input: CartDiscountContext, amount: Numeral)
    requires
        single_source_decision(input) matches Some(op) && op.value == ValueModel::FixedAmount(
            amount,
        ),
    ensures
        amount == one_time_percentage(input).min(input.total()),
        amount.le(input.total()),
        amount.le(one_time_percentage(input)),
{
    lemma_min_is_lower_bound(one_time_percentage(input), input.total());
}

/// Where no tier's percentage spells a number, the percentage is exactly
/// `10.0`, whatever texts the tiers hold.
pub proof fn lemma_unreadable_percentages_give_ten(input: CartDiscountContext)
    requires
        numeral_of(input.app_discount.percentage) is None,
        numeral_of(input.cart_metafield.percentage) is None,
        numeral_of(input.cart_attribute.percentage) is None,
    ensures
        input.resolved_percentage() == ten(),
{
    lemma_percentage_priority(input);
}

/// A discount type that resolves to the empty text gives a percentage
/// discount, as the type `percentage` does.
pub proof fn lemma_empty_type_is_percentage(input: CartDiscountContext)
    requires
        three_tier_decision(input) is Some,
        input.resolved_type().len() == 0 || input.resolved_type() == "percentage"@,
    ensures
        three_tier_decision(input)->0.value == ValueModel::Percentage(input.resolved_percentage()),
{
}

/// By the single-source strategy a discount is applied exactly if the cart
/// carries a one-time code that is not empty; the percentage and the type
/// beside the code have no say in it, and the code never goes with the
/// operation.
pub proof fn lemma_one_time_activation(input: CartDiscountContext)
    requires
        input.eligible(),
    ensures
        single_source_decision(input) is Some <==> has_one_time_code(input),
        single_source_decision(input) matches Some(op) ==> op.associated_discount_code is None,
{
}

/// Whatever is decided, the operation targets the whole order subtotal,
/// takes the first candidate, and carries a code only where the cart has one.
pub proof fn lemma_operation_shape(input: CartDiscountContext)
    requires
        three_tier_decision(input) is Some,
    ensures
        three_tier_decision(input)->0.excluded_cart_line_ids.len() == 0,
        three_tier_decision(input)->0.selection_strategy == SelectionStrategy::First,
        three_tier_decision(input)->0.associated_discount_code is Some
            <==> input.resolved_code().len() > 0,
        three_tier_decision(input)->0.associated_discount_code matches Some(c) ==> c
            == input.resolved_code(),
{
}

} // verus!

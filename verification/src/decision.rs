//! What is decided: at most one discount on the order, with its value, its
//! message and the discount code that goes with it.

use crate::decimal::Decimal;
use crate::numeral::Numeral;
use vstd::prelude::*;
use vstd::string::*;

verus! {

/// How the discount's number is meant.
#[derive(Clone, Copy, Debug, PartialEq, Eq, Structural)]
pub enum DiscountKind {
    /// A share of the order, in percent.
    Percentage,
    /// An amount of money.
    FixedAmount,
}

/// The kind that a discount type names: `percentage` and the empty text name a
/// percentage, every other text a fixed amount.
pub open spec fn kind_of(discount_type: Seq<char>) -> DiscountKind {
    if discount_type == "percentage"@ || discount_type.len() == 0 {
        DiscountKind::Percentage
    } else {
        DiscountKind::FixedAmount
    }
}

impl DiscountKind {
    /// Reads the kind from a discount type.
    pub fn from_text(discount_type: &str) -> (r: DiscountKind)
        ensures
            r == kind_of(discount_type@),
    {
        if discount_type.is_empty() {
            return DiscountKind::Percentage;
        }
        let given = String::from_str(discount_type);
        let percentage = String::from_str("percentage");
        if given == percentage {
            DiscountKind::Percentage
        } else {
            DiscountKind::FixedAmount
        }
    }
}

/// The value of a discount.
#[derive(Clone, Debug, PartialEq, Eq)]
pub enum DiscountValue {
    /// So many percent off; `10.0` is ten percent.
    Percentage(Decimal),
    /// So much money off.
    FixedAmount(Decimal),
}

/// A discount value as numerals.
pub enum ValueModel {
    Percentage(Numeral),
    FixedAmount(Numeral),
}

impl View for DiscountValue {
    type V = ValueModel;

    open spec fn view(&self) -> ValueModel {
        match self {
            DiscountValue::Percentage(d) => ValueModel::Percentage(d@),
            DiscountValue::FixedAmount(d) => ValueModel::FixedAmount(d@),
        }
    }
}

/// The value of a discount of the given kind: the percentage as it stands,
/// or, as an amount of money, the percentage's number capped at the cart total.
pub open spec fn value_of(kind: DiscountKind, percentage: Numeral, total: Numeral) -> ValueModel {
    match kind {
        DiscountKind::Percentage => ValueModel::Percentage(percentage),
        DiscountKind::FixedAmount => ValueModel::FixedAmount(percentage.min(total)),
    }
}

/// Builds the value of a discount.
pub fn discount_value(kind: DiscountKind, percentage: Decimal, total: Decimal) -> (r: DiscountValue)
    ensures
        r@ == value_of(kind, percentage@, total@),
{
    match kind {
        DiscountKind::Percentage => DiscountValue::Percentage(percentage),
        DiscountKind::FixedAmount => DiscountValue::FixedAmount(percentage.min(total)),
    }
}

/// Which candidate is taken where several qualify.
#[derive(Clone, Copy, Debug, PartialEq, Eq, Structural)]
pub enum SelectionStrategy {
    First,
    Maximum,
}

/// One discount on the order subtotal.
#[derive(Clone, Debug, PartialEq, Eq)]
pub struct OrderDiscountOperation {
    pub message: String,
    pub value: DiscountValue,
    pub excluded_cart_line_ids: Vec<String>,
    pub selection_strategy: SelectionStrategy,
    pub associated_discount_code: Option<String>,
}

/// An order discount as plain values.
pub struct OperationModel {
    pub message: Seq<char>,
    pub value: ValueModel,
    pub excluded_cart_line_ids: Seq<Seq<char>>,
    pub selection_strategy: SelectionStrategy,
    pub associated_discount_code: Option<Seq<char>>,
}

impl View for OrderDiscountOperation {
    type V = OperationModel;

    open spec fn view(&self) -> OperationModel {
        OperationModel {
            message: self.message@,
            value: self.value@,
            excluded_cart_line_ids: self.excluded_cart_line_ids@.map_values(|id: String| id@),
            selection_strategy: self.selection_strategy,
            associated_discount_code: match self.associated_discount_code {
                Some(c) => Some(c@),
                None => None,
            },
        }
    }
}

/// The outcome for one cart: no discount, or exactly one.
#[derive(Clone, Debug, PartialEq, Eq)]
pub enum DiscountDecision {
    Empty,
    Operation(OrderDiscountOperation),
}

impl View for DiscountDecision {
    type V = Option<OperationModel>;

    open spec fn view(&self) -> Option<OperationModel> {
        match self {
            DiscountDecision::Empty => None,
            DiscountDecision::Operation(op) => Some(op@),
        }
    }
}

/// The label shown with the discount: the percentage with zero decimal
/// places, whatever the kind of the discount.
pub open spec fn message_of(percentage: Numeral) -> Seq<char> {
    "Referral Discount ("@ + percentage.rounded_text() + "%)"@
}

/// The one operation for the resolved values: on the whole order subtotal
/// with no line left out, first candidate taken, and the code attached only
/// where there is one.
pub open spec fn operation_of(
    percentage: Numeral,
    discount_type: Seq<char>,
    total: Numeral,
    code: Seq<char>,
) -> OperationModel {
    OperationModel {
        message: message_of(percentage),
        value: value_of(kind_of(discount_type), percentage, total),
        excluded_cart_line_ids: Seq::empty(),
        selection_strategy: SelectionStrategy::First,
        associated_discount_code: if code.len() > 0 {
            Some(code)
        } else {
            None
        },
    }
}

/// Assembles the operation for the resolved values.
pub fn build_operation(
    percentage: Decimal,
    discount_type: &str,
    total: Decimal,
    code: String,
) -> (r: OrderDiscountOperation)
    ensures
        r@ == operation_of(percentage@, discount_type@, total@, code@),
{
    let mut message = String::from_str("Referral Discount (");
    let rounded = percentage.rounded_text();
    message.append(rounded.as_str());
    message.append("%)");
    let value = discount_value(DiscountKind::from_text(discount_type), percentage, total);
    let associated_discount_code = if code.as_str().is_empty() {
        None
    } else {
        Some(code)
    };
    let excluded_cart_line_ids: Vec<String> = Vec::new();
    assert(excluded_cart_line_ids@.map_values(|id: String| id@) =~= Seq::<Seq<char>>::empty());
    OrderDiscountOperation {
        message,
        value,
        excluded_cart_line_ids,
        selection_strategy: SelectionStrategy::First,
        associated_discount_code,
    }
}

} // verus!

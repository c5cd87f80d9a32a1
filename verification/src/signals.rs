//! What a cart brings to the decision: its discount classes, its total and
//! the tiers of discount signals, with the rules that merge the tiers.

use crate::decimal::Decimal;
use crate::numeral::{parse_numeral, ten, zero, Numeral};
use vstd::prelude::*;
use vstd::string::*;

verus! {

/// What a discount may be applied to.
#[derive(Clone, Copy, Debug, PartialEq, Eq, Structural)]
pub enum DiscountClass {
    Order,
    Product,
    Shipping,
}

/// Signals set on the discount itself when an app created it. They carry no code.
#[derive(Clone, Debug, PartialEq, Eq)]
pub struct AppDiscountSignals {
    pub percentage: Option<String>,
    pub discount_type: Option<String>,
}

/// Signals carried by the cart: in its metafields, in its attributes, or with
/// a one-time code.
#[derive(Clone, Debug, PartialEq, Eq)]
pub struct CartSignals {
    pub code: Option<String>,
    pub percentage: Option<String>,
    pub discount_type: Option<String>,
}

/// Everything one decision is made from. Percentages and the total are kept as
/// the texts they arrived in; a text that spells no decimal number counts as
/// missing.
#[derive(Clone, Debug, PartialEq, Eq)]
pub struct CartDiscountContext {
    pub discount_classes: Vec<DiscountClass>,
    pub cart_total: String,
    pub app_discount: AppDiscountSignals,
    pub cart_metafield: CartSignals,
    pub cart_attribute: CartSignals,
    pub one_time_code: CartSignals,
}

/// The characters of a text signal, if it is there.
pub open spec fn text_of(signal: Option<String>) -> Option<Seq<char>> {
    match signal {
        Some(s) => Some(s@),
        None => None,
    }
}

/// The number that a signal spells, if it is there and spells one.
pub open spec fn numeral_of(signal: Option<String>) -> Option<Numeral> {
    match signal {
        Some(s) => parse_numeral(s@),
        None => None,
    }
}

/// The first value that is present, going through the sources in order.
pub open spec fn first_present<T>(sources: Seq<Option<T>>) -> Option<T>
    decreases sources.len(),
{
    if sources.len() == 0 {
        None
    } else if sources[0] is Some {
        sources[0]
    } else {
        first_present(sources.skip(1))
    }
}

/// A source added at the end is used only when no earlier one is present.
pub proof fn lemma_first_present_push<T>(sources: Seq<Option<T>>, last: Option<T>)
    ensures
        first_present(sources.push(last)) == if first_present(sources) is Some {
            first_present(sources)
        } else {
            last
        },
    decreases sources.len(),
{
    let all = sources.push(last);
    if sources.len() == 0 {
        assert(all.skip(1) =~= Seq::<Option<T>>::empty());
    } else {
        assert(all[0] == sources[0]);
        assert(all.skip(1) =~= sources.skip(1).push(last));
        lemma_first_present_push(sources.skip(1), last);
    }
}

/// Of three sources in order, the first present one wins.
pub proof fn lemma_first_present_of_three<T>(a: Option<T>, b: Option<T>, c: Option<T>)
    ensures
        first_present(seq![a, b, c]) == if a is Some {
            a
        } else if b is Some {
            b
        } else {
            c
        },
{
    reveal_with_fuel(first_present, 4);
}

/// Of two sources in order, the first present one wins.
pub proof fn lemma_first_present_of_two<T>(a: Option<T>, b: Option<T>)
    ensures
        first_present(seq![a, b]) == if a is Some {
            a
        } else {
            b
        },
{
    reveal_with_fuel(first_present, 3);
}

/// Goes through the sources in order and hands out the first value that is
/// present.
pub fn pick_first<T>(sources: Vec<Option<T>>) -> (r: Option<T>)
    ensures
        r == first_present(sources@),
{
    let ghost all = sources@;
    let mut remaining = sources;
    let mut found: Option<T> = None;
    while remaining.len() > 0
        invariant
            first_present(all) == if first_present(remaining@) is Some {
                first_present(remaining@)
            } else {
                found
            },
        decreases remaining.len(),
    {
        let ghost before = remaining@;
        let last = remaining.pop().unwrap();
        proof {
            assert(before =~= remaining@.push(last));
            lemma_first_present_push(remaining@, last);
        }
        if last.is_some() {
            found = last;
        }
    }
    found
}

impl CartDiscountContext {
    /// The discount may act on the order as a whole.
    pub open spec fn eligible(&self) -> bool {
        self.discount_classes@.contains(DiscountClass::Order)
    }

    /// An app created the discount: its own settings supply a percentage.
    pub open spec fn is_app_discount(&self) -> bool {
        numeral_of(self.app_discount.percentage) is Some
    }

    /// The percentage of the first tier that supplies one: the discount's own
    /// settings, then the cart's metafields, then its attributes; `10.0`
    /// where none does.
    pub open spec fn resolved_percentage(&self) -> Numeral {
        match first_present(
            seq![
                numeral_of(self.app_discount.percentage),
                numeral_of(self.cart_metafield.percentage),
                numeral_of(self.cart_attribute.percentage),
            ],
        ) {
            Some(n) => n,
            None => ten(),
        }
    }

    /// The discount type of the first tier that supplies one, in the same
    /// order; `percentage` where none does.
    pub open spec fn resolved_type(&self) -> Seq<char> {
        match first_present(
            seq![
                text_of(self.app_discount.discount_type),
                text_of(self.cart_metafield.discount_type),
                text_of(self.cart_attribute.discount_type),
            ],
        ) {
            Some(t) => t,
            None => "percentage"@,
        }
    }

    /// The discount code of the cart: from its metafields, else from its
    /// attributes, else empty. The discount's own settings never supply one.
    pub open spec fn resolved_code(&self) -> Seq<char> {
        match first_present(
            seq![text_of(self.cart_metafield.code), text_of(self.cart_attribute.code)],
        ) {
            Some(c) => c,
            None => Seq::empty(),
        }
    }

    /// The cart total; `0.0` where its text spells no number.
    pub open spec fn total(&self) -> Numeral {
        match parse_numeral(self.cart_total@) {
            Some(n) => n,
            None => zero(),
        }
    }
}

/// Whether the discount classes name the order.
pub fn has_order_class(classes: &Vec<DiscountClass>) -> (r: bool)
    ensures
        r == classes@.contains(DiscountClass::Order),
{
    let mut i: usize = 0;
    while i < classes.len()
        invariant
            i <= classes.len(),
            forall|j: int| 0 <= j < i ==> classes@[j] != DiscountClass::Order,
        decreases classes.len() - i,
    {
        match classes[i] {
            DiscountClass::Order => {
                return true;
            },
            _ => {},
        }
        i += 1;
    }
    false
}

/// Reads the number of a signal; a missing signal and one that spells no
/// number both give `None`.
pub fn read_decimal(signal: &Option<String>) -> (r: Option<Decimal>)
    ensures
        match r {
            Some(d) => numeral_of(*signal) == Some(d@) && d@.wf(),
            None => numeral_of(*signal) is None,
        },
{
    match signal {
        Some(s) => Decimal::parse(s.as_str()),
        None => None,
    }
}

/// Reads the text of a signal.
pub fn read_text(signal: &Option<String>) -> (r: Option<String>)
    ensures
        match r {
            Some(s) => text_of(*signal) == Some(s@),
            None => text_of(*signal) is None,
        },
{
    match signal {
        Some(s) => Some(s.clone()),
        None => None,
    }
}

} // verus!

//! Order-level referral discounts, decided from the discount signals a cart carries.
//!
//! A cart arrives with up to three tiers of signals (the discount's own settings,
//! cart metafields, cart attributes), or with a single one-time code. The resolver
//! picks, field by field, the first tier that supplies a value and returns at most
//! one order discount. Amounts are exact decimal numerals throughout.

pub mod digits;
pub mod numeral;
pub mod decimal;
pub mod signals;
pub mod decision;
pub mod resolver;

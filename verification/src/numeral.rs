//! Decimal numerals: what a text spells, how two of them compare, and how one
//! rounds to a whole number.

use crate::digits::{
    all_digits, digit_char, digits_text, digits_value, lemma_pow10_add, lemma_pow10_positive,
    nat_text, pow10,
};
use vstd::prelude::*;

verus! {

/// A signed decimal numeral, digit by digit: `whole` stands before the point
/// and `fraction` after it, most significant digit first.
pub struct Numeral {
    pub negative: bool,
    pub whole: Seq<u8>,
    pub fraction: Seq<u8>,
}

/// `-` for a negative numeral, nothing otherwise.
pub open spec fn sign_text(negative: bool) -> Seq<char> {
    if negative {
        seq!['-']
    } else {
        Seq::empty()
    }
}

impl Numeral {
    /// All entries are digits and there is at least one of them.
    pub open spec fn wf(self) -> bool {
        &&& all_digits(self.whole)
        &&& all_digits(self.fraction)
        &&& self.whole.len() + self.fraction.len() > 0
    }

    /// The number of decimal places.
    pub open spec fn scale(self) -> nat {
        self.fraction.len()
    }

    /// The size of the numeral, counted in units of its last decimal place.
    pub open spec fn magnitude(self) -> nat {
        digits_value(self.whole + self.fraction)
    }

    /// The size of the numeral, counted in units of the `places`-th decimal
    /// place. Meant for `places` no smaller than `scale()`.
    pub open spec fn size_at(self, places: nat) -> nat {
        self.magnitude() * pow10((places - self.scale()) as nat)
    }

    /// The value of the numeral, counted in units of the `places`-th decimal
    /// place: its size there, below zero for a negative numeral.
    pub open spec fn units(self, places: nat) -> int {
        if self.negative {
            -(self.size_at(places) as int)
        } else {
            self.size_at(places) as int
        }
    }

    /// The value is zero.
    pub open spec fn is_zero(self) -> bool {
        self.magnitude() == 0
    }

    /// `self` is at most `other` in value: both are counted in units of the
    /// finer of their two last places and the counts compared.
    pub open spec fn le(self, other: Numeral) -> bool {
        self.units(finer_scale(self, other)) <= other.units(finer_scale(self, other))
    }

    /// Both numerals have the same value.
    pub open spec fn same_value(self, other: Numeral) -> bool {
        self.le(other) && other.le(self)
    }

    /// The smaller of the two in value; `self` where they are equal.
    pub open spec fn min(self, other: Numeral) -> Numeral {
        if self.le(other) {
            self
        } else {
            other
        }
    }

    /// Whether rounding to a whole number moves away from zero: the fraction
    /// is more than one half, or exactly one half beside an odd whole part.
    pub open spec fn rounds_up(self) -> bool {
        let twice = 2 * digits_value(self.fraction);
        let one = pow10(self.fraction.len());
        twice > one || (twice == one && digits_value(self.whole) % 2 == 1)
    }

    /// The size of the nearest whole number, a tie going to the even one.
    pub open spec fn rounded(self) -> nat {
        if self.rounds_up() {
            digits_value(self.whole) + 1
        } else {
            digits_value(self.whole)
        }
    }

    /// The numeral with zero decimal places: its sign and the nearest whole
    /// number. A negative numeral keeps its sign even where it rounds to zero.
    pub open spec fn rounded_text(self) -> Seq<char> {
        sign_text(self.negative) + nat_text(self.rounded())
    }

    /// The numeral written out: sign, whole digits and, where there is a
    /// fraction, a point and the fraction digits.
    pub open spec fn text(self) -> Seq<char> {
        let tail = if self.fraction.len() > 0 {
            seq!['.'] + digits_text(self.fraction)
        } else {
            Seq::empty()
        };
        sign_text(self.negative) + digits_text(self.whole) + tail
    }
}

/// The larger of the two numerals' numbers of decimal places.
pub open spec fn finer_scale(a: Numeral, b: Numeral) -> nat {
    if a.scale() >= b.scale() {
        a.scale()
    } else {
        b.scale()
    }
}

/// The numeral `10.0`.
pub open spec fn ten() -> Numeral {
    Numeral { negative: false, whole: seq![1u8, 0u8], fraction: seq![0u8] }
}

/// The numeral `0.0`.
pub open spec fn zero() -> Numeral {
    Numeral { negative: false, whole: seq![0u8], fraction: seq![0u8] }
}

/// The character is one of `0` to `9`.
pub open spec fn is_digit(c: char) -> bool {
    '0' <= c && c <= '9'
}

/// The digit that a digit character stands for.
pub open spec fn digit_of(c: char) -> u8 {
    (c as int - '0' as int) as u8
}

/// The digits that a run of digit characters stands for.
pub open spec fn digits_of(s: Seq<char>) -> Seq<u8> {
    Seq::new(s.len(), |i: int| digit_of(s[i]))
}

/// Every character is a digit.
pub open spec fn all_digit_chars(s: Seq<char>) -> bool {
    forall|i: int| 0 <= i < s.len() ==> is_digit(#[trigger] s[i])
}

/// How many digits the text starts with.
pub open spec fn leading_digits(s: Seq<char>) -> nat
    decreases s.len(),
{
    if s.len() > 0 && is_digit(s[0]) {
        1 + leading_digits(s.skip(1))
    } else {
        0
    }
}

/// The text starts with a sign.
pub open spec fn has_sign(s: Seq<char>) -> bool {
    s.len() > 0 && (s[0] == '+' || s[0] == '-')
}

/// The numeral that a text spells, if it spells one. A numeral is an optional
/// sign, then digits, then optionally a point and more digits, with at least
/// one digit in all: `15`, `-0.5`, `+7.`, `.25`. Nothing else is one: no
/// spaces, no exponent, no digit separators.
pub open spec fn parse_numeral(s: Seq<char>) -> Option<Numeral> {
    let body = if has_sign(s) {
        s.skip(1)
    } else {
        s
    };
    let whole = body.take(leading_digits(body) as int);
    let rest = body.skip(leading_digits(body) as int);
    let fraction = if rest.len() > 0 {
        rest.skip(1)
    } else {
        rest
    };
    if (rest.len() == 0 || rest[0] == '.') && all_digit_chars(fraction) && whole.len()
        + fraction.len() > 0 {
        Some(
            Numeral {
                negative: has_sign(s) && s[0] == '-',
                whole: digits_of(whole),
                fraction: digits_of(fraction),
            },
        )
    } else {
        None
    }
}

/// The leading digits are digits, and what follows them is none.
pub proof fn lemma_leading_digits(s: Seq<char>)
    ensures
        leading_digits(s) <= s.len(),
        forall|j: int| 0 <= j < leading_digits(s) ==> is_digit(#[trigger] s[j]),
        leading_digits(s) < s.len() ==> !is_digit(s[leading_digits(s) as int]),
    decreases s.len(),
{
    if s.len() > 0 && is_digit(s[0]) {
        let t = s.skip(1);
        lemma_leading_digits(t);
        assert forall|j: int| 0 <= j < leading_digits(s) implies is_digit(#[trigger] s[j]) by {
            if j > 0 {
                assert(s[j] == t[j - 1]);
            }
        }
    }
}

/// A run of digits that ends at the text's end or before a character that is
/// no digit is the whole run of leading digits.
pub proof fn lemma_leading_digits_is(s: Seq<char>, n: int)
    requires
        0 <= n <= s.len(),
        forall|j: int| 0 <= j < n ==> is_digit(#[trigger] s[j]),
        n < s.len() ==> !is_digit(s[n]),
    ensures
        leading_digits(s) == n,
{
    lemma_leading_digits(s);
}

/// What a text spells is well formed.
pub proof fn lemma_parse_wf(s: Seq<char>)
    requires
        parse_numeral(s) is Some,
    ensures
        parse_numeral(s)->0.wf(),
{
    let body = if has_sign(s) {
        s.skip(1)
    } else {
        s
    };
    lemma_leading_digits(body);
}

/// A text that spells a numeral holds only signs, digits and points.
pub proof fn lemma_numeral_chars(s: Seq<char>, i: int)
    requires
        parse_numeral(s) is Some,
        0 <= i < s.len(),
    ensures
        is_digit(s[i]) || s[i] == '.' || s[i] == '+' || s[i] == '-',
{
    let body = if has_sign(s) {
        s.skip(1)
    } else {
        s
    };
    let start: int = if has_sign(s) {
        1
    } else {
        0
    };
    lemma_leading_digits(body);
    let w = leading_digits(body) as int;
    let rest = body.skip(w);
    if i >= start {
        let j = i - start;
        assert(s[i] == body[j]);
        if j > w {
            assert(rest.skip(1)[j - w - 1] == body[j]);
        }
    }
}

/// Of any two numerals one is at most the other, and each is at most itself.
pub proof fn lemma_le_total(a: Numeral, b: Numeral)
    ensures
        a.le(b) || b.le(a),
        a.le(a),
{
}

/// Counting in finer units multiplies the count by a power of ten.
pub proof fn lemma_units_rescale(n: Numeral, places: nat, finer: nat)
    requires
        n.scale() <= places <= finer,
    ensures
        n.units(finer) == n.units(places) * pow10((finer - places) as nat),
{
    let m = n.magnitude() as int;
    let p = pow10((places - n.scale()) as nat) as int;
    let q = pow10((finer - places) as nat) as int;
    lemma_pow10_add((places - n.scale()) as nat, (finer - places) as nat);
    assert(pow10((finer - n.scale()) as nat) == p * q);
    assert(m * (p * q) == (m * p) * q) by (nonlinear_arith);
    assert((-(m * p)) * q == -((m * p) * q)) by (nonlinear_arith);
}

/// Two numerals compare the same at every place fine enough for both.
pub proof fn lemma_le_at(a: Numeral, b: Numeral, places: nat)
    requires
        a.scale() <= places,
        b.scale() <= places,
    ensures
        a.le(b) <==> a.units(places) <= b.units(places),
{
    let common = finer_scale(a, b);
    let k = pow10((places - common) as nat) as int;
    lemma_units_rescale(a, common, places);
    lemma_units_rescale(b, common, places);
    lemma_pow10_positive((places - common) as nat);
    let x = a.units(common);
    let y = b.units(common);
    assert(x <= y <==> x * k <= y * k) by (nonlinear_arith)
        requires
            k > 0,
    ;
}

/// The order passes along: what is at most a second numeral is at most every
/// numeral that the second is at most.
pub proof fn lemma_le_transitive(a: Numeral, b: Numeral, c: Numeral)
    requires
        a.le(b),
        b.le(c),
    ensures
        a.le(c),
{
    let places = if finer_scale(a, b) >= c.scale() {
        finer_scale(a, b)
    } else {
        c.scale()
    };
    lemma_le_at(a, b, places);
    lemma_le_at(b, c, places);
    lemma_le_at(a, c, places);
}

/// The smaller of two numerals is one of them and exceeds neither.
pub proof fn lemma_min_is_lower_bound(a: Numeral, b: Numeral)
    ensures
        a.min(b) == a || a.min(b) == b,
        a.min(b).le(a),
        a.min(b).le(b),
{
    lemma_le_total(a, b);
    lemma_le_total(b, a);
}

/// Writing a numeral out and reading the text again gives the numeral back.
pub proof fn lemma_text_round_trip(n: Numeral)
    requires
        n.wf(),
    ensures
        parse_numeral(n.text()) == Some(n),
{
    let s = n.text();
    let whole = digits_text(n.whole);
    let fraction = digits_text(n.fraction);
    let tail = if n.fraction.len() > 0 {
        seq!['.'] + fraction
    } else {
        Seq::empty()
    };
    let body = whole + tail;
    if n.negative {
        assert(s.skip(1) =~= body);
    }
    lemma_leading_digits_is(body, whole.len() as int);
    assert(body.take(whole.len() as int) =~= whole);
    assert(body.skip(whole.len() as int) =~= tail);
    let after = if tail.len() > 0 {
        tail.skip(1)
    } else {
        tail
    };
    assert(after =~= fraction);
    assert(digits_of(whole) =~= n.whole);
    assert(digits_of(fraction) =~= n.fraction);
}

} // verus!

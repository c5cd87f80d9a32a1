//! Exact decimal numbers, read from text and kept digit by digit.

use crate::digits::{
    all_digits, compare_aligned, comparison_of, digit_char, digits_text, digits_value,
    lemma_canonical_text, lemma_padded_value, lemma_pow10_positive, lemma_value_bound,
    lemma_value_concat, lemma_value_zero, pow10, successor, zeros, Comparison,
};
use crate::numeral::{
    digit_of, digits_of, finer_scale, has_sign, is_digit, lemma_leading_digits_is,
    lemma_numeral_chars, parse_numeral, Numeral,
};
use vstd::prelude::*;
use vstd::slice::slice_to_vec;
use vstd::string::*;

verus! {

/// A decimal number of any length, exact to its last digit.
#[derive(Debug, PartialEq, Eq)]
pub struct Decimal {
    negative: bool,
    whole: Vec<u8>,
    fraction: Vec<u8>,
}

impl View for Decimal {
    type V = Numeral;

    closed spec fn view(&self) -> Numeral {
        Numeral { negative: self.negative, whole: self.whole@, fraction: self.fraction@ }
    }
}

impl Clone for Decimal {
    fn clone(&self) -> (r: Self)
        ensures
            r@ == self@,
    {
        proof {
            use_type_invariant(self);
        }
        Decimal {
            negative: self.negative,
            whole: slice_to_vec(self.whole.as_slice()),
            fraction: slice_to_vec(self.fraction.as_slice()),
        }
    }
}

/// The text for one digit.
fn digit_str(d: u8) -> (r: &'static str)
    requires
        d <= 9,
    ensures
        r@ == seq![digit_char(d)],
{
    proof {
        reveal_strlit("0");
        reveal_strlit("1");
        reveal_strlit("2");
        reveal_strlit("3");
        reveal_strlit("4");
        reveal_strlit("5");
        reveal_strlit("6");
        reveal_strlit("7");
        reveal_strlit("8");
        reveal_strlit("9");
    }
    match d {
        0 => "0",
        1 => "1",
        2 => "2",
        3 => "3",
        4 => "4",
        5 => "5",
        6 => "6",
        7 => "7",
        8 => "8",
        _ => "9",
    }
}

/// Appends the text of `digits[from..]` to `out`.
fn append_digits(out: &mut String, digits: &Vec<u8>, from: usize)
    requires
        all_digits(digits@),
        from <= digits.len(),
    ensures
        final(out)@ == old(out)@ + digits_text(digits@.skip(from as int)),
{
    let ghost before = out@;
    let mut i: usize = from;
    while i < digits.len()
        invariant
            from <= i <= digits.len(),
            all_digits(digits@),
            out@ == before + digits_text(digits@.subrange(from as int, i as int)),
        decreases digits.len() - i,
    {
        out.append(digit_str(digits[i]));
        i += 1;
    }
}

/// For a character below 128, what its byte says of it.
proof fn lemma_ascii_byte(c: char)
    requires
        c <= '\u{7f}',
    ensures
        is_digit(c) <==> 48 <= c as u8 <= 57,
        is_digit(c) ==> digit_of(c) == (c as u8 - 48) as u8,
        c == '.' <==> c as u8 == 46,
        c == '+' <==> c as u8 == 43,
        c == '-' <==> c as u8 == 45,
{
}

impl Decimal {
    #[verifier::type_invariant]
    spec fn valid(self) -> bool {
        self@.wf()
    }

    /// Reads a decimal number from text: an optional sign, then digits, then
    /// optionally a point and more digits, with at least one digit in all.
    /// Any other text gives `None`.
    #[verifier::loop_isolation(false)]
    pub fn parse(text: &str) -> (r: Option<Decimal>)
        ensures
            match r {
                Some(d) => parse_numeral(text@) == Some(d@) && d@.wf(),
                None => parse_numeral(text@) is None,
            },
    {
        let ghost s = text@;
        if !text.is_ascii() {
            proof {
                if parse_numeral(s) is Some {
                    assert forall|i: int| 0 <= i < s.len() implies '\0' <= #[trigger] s[i]
                        <= '\u{7f}' by {
                        lemma_numeral_chars(s, i);
                    }
                }
            }
            return None;
        }
        let bytes = text.as_bytes();
        let n: usize = bytes.len();
        proof {
            is_ascii_spec_bytes(text);
            assert forall|i: int| 0 <= i < n implies #[trigger] bytes@[i] == s[i] as int && s[i]
                <= '\u{7f}' by {}
        }
        let mut negative = false;
        let mut start: usize = 0;
        if n > 0 && (bytes[0] == 43 || bytes[0] == 45) {
            negative = bytes[0] == 45;
            start = 1;
        }
        let ghost body = s.skip(start as int);
        proof {
            if n > 0 {
                lemma_ascii_byte(s[0]);
            }
            assert(body == if has_sign(s) {
                s.skip(1)
            } else {
                s
            });
        }
        let mut whole: Vec<u8> = Vec::new();
        let mut i: usize = start;
        while i < n && 48 <= bytes[i] && bytes[i] <= 57
            invariant
                start <= i <= n,
                forall|j: int| 0 <= j < i - start ==> is_digit(#[trigger] body[j]),
                whole@ =~= digits_of(body.take(i - start)),
            decreases n - i,
        {
            proof {
                lemma_ascii_byte(s[i as int]);
            }
            whole.push(bytes[i] - 48);
            i += 1;
        }
        let ghost w = (i - start) as int;
        proof {
            lemma_leading_digits_is(body, w);
        }
        let ghost rest = body.skip(w);
        let mut fraction: Vec<u8> = Vec::new();
        if i < n {
            proof {
                lemma_ascii_byte(s[i as int]);
            }
            if bytes[i] != 46 {
                return None;
            }
            let ghost tail = rest.skip(1);
            let mut k: usize = i + 1;
            while k < n
                invariant
                    i < k <= n,
                    forall|j: int| 0 <= j < k - i - 1 ==> is_digit(#[trigger] tail[j]),
                    fraction@ =~= digits_of(tail.take(k - i - 1)),
                decreases n - k,
            {
                proof {
                    lemma_ascii_byte(s[k as int]);
                    assert(tail[k - i - 1] == s[k as int]);
                }
                if !(48 <= bytes[k] && bytes[k] <= 57) {
                    return None;
                }
                fraction.push(bytes[k] - 48);
                k += 1;
            }
        }
        if whole.len() == 0 && fraction.len() == 0 {
            return None;
        }
        proof {
            let after = if rest.len() > 0 {
                rest.skip(1)
            } else {
                rest
            };
            assert(fraction@ =~= digits_of(after));
        }
        Some(Decimal { negative, whole, fraction })
    }

    /// The number `10.0`.
    pub fn ten() -> (r: Decimal)
        ensures
            r@ == crate::numeral::ten(),
            r@.wf(),
    {
        let mut whole: Vec<u8> = Vec::new();
        whole.push(1);
        whole.push(0);
        let mut fraction: Vec<u8> = Vec::new();
        fraction.push(0);
        assert(whole@ =~= seq![1u8, 0u8]);
        Decimal { negative: false, whole, fraction }
    }

    /// The number `0.0`.
    pub fn zero() -> (r: Decimal)
        ensures
            r@ == crate::numeral::zero(),
            r@.wf(),
    {
        let mut whole: Vec<u8> = Vec::new();
        whole.push(0);
        let mut fraction: Vec<u8> = Vec::new();
        fraction.push(0);
        Decimal { negative: false, whole, fraction }
    }

    /// Whether the number carries a minus sign.
    pub fn is_negative(&self) -> (r: bool)
        ensures
            r == self@.negative,
    {
        self.negative
    }

    /// Whether the number is zero.
    pub fn is_zero(&self) -> (r: bool)
        ensures
            r == self@.is_zero(),
    {
        let ghost all = self.whole@ + self.fraction@;
        proof {
            lemma_value_zero(all);
        }
        let mut i: usize = 0;
        while i < self.whole.len()
            invariant
                i <= self.whole.len(),
                all == self.whole@ + self.fraction@,
                forall|j: int| 0 <= j < i ==> #[trigger] self.whole@[j] == 0,
            decreases self.whole.len() - i,
        {
            if self.whole[i] != 0 {
                proof {
                    lemma_value_zero(all);
                    assert(all[i as int] != 0);
                }
                return false;
            }
            i += 1;
        }
        let mut k: usize = 0;
        while k < self.fraction.len()
            invariant
                k <= self.fraction.len(),
                all == self.whole@ + self.fraction@,
                forall|j: int| 0 <= j < self.whole.len() ==> #[trigger] self.whole@[j] == 0,
                forall|j: int| 0 <= j < k ==> #[trigger] self.fraction@[j] == 0,
            decreases self.fraction.len() - k,
        {
            if self.fraction[k] != 0 {
                proof {
                    lemma_value_zero(all);
                    assert(all[self.whole.len() + k] != 0);
                }
                return false;
            }
            k += 1;
        }
        true
    }

    /// The digits of the number, written with `whole_len` digits before the
    /// point and `frac_len` after it.
    fn aligned(&self, whole_len: usize, frac_len: usize) -> (r: Vec<u8>)
        requires
            self.whole.len() <= whole_len,
            self.fraction.len() <= frac_len,
        ensures
            all_digits(r@),
            r@ == zeros((whole_len - self.whole.len()) as nat) + (self.whole@ + self.fraction@)
                + zeros((frac_len - self.fraction.len()) as nat),
    {
        proof {
            use_type_invariant(self);
        }
        let ghost front = zeros((whole_len - self.whole.len()) as nat);
        let mut v: Vec<u8> = Vec::new();
        let mut i: usize = self.whole.len();
        while i < whole_len
            invariant
                self.whole.len() <= i <= whole_len,
                v@ =~= zeros((i - self.whole.len()) as nat),
            decreases whole_len - i,
        {
            v.push(0);
            i += 1;
        }
        let mut j: usize = 0;
        while j < self.whole.len()
            invariant
                j <= self.whole.len(),
                v@ =~= front + self.whole@.take(j as int),
            decreases self.whole.len() - j,
        {
            v.push(self.whole[j]);
            j += 1;
        }
        let mut k: usize = 0;
        while k < self.fraction.len()
            invariant
                k <= self.fraction.len(),
                v@ =~= front + self.whole@ + self.fraction@.take(k as int),
            decreases self.fraction.len() - k,
        {
            v.push(self.fraction[k]);
            k += 1;
        }
        let mut m: usize = self.fraction.len();
        while m < frac_len
            invariant
                self.fraction.len() <= m <= frac_len,
                v@ =~= front + self.whole@ + self.fraction@ + zeros(
                    (m - self.fraction.len()) as nat,
                ),
            decreases frac_len - m,
        {
            v.push(0);
            m += 1;
        }
        v
    }

    /// Compares the sizes of two numbers, signs left aside.
    fn compare_size(&self, other: &Decimal) -> (r: Comparison)
        ensures
            r == comparison_of(
                self@.size_at(finer_scale(self@, other@)) as int,
                other@.size_at(finer_scale(self@, other@)) as int,
            ),
    {
        let whole_len: usize = if self.whole.len() >= other.whole.len() {
            self.whole.len()
        } else {
            other.whole.len()
        };
        let frac_len: usize = if self.fraction.len() >= other.fraction.len() {
            self.fraction.len()
        } else {
            other.fraction.len()
        };
        let a = self.aligned(whole_len, frac_len);
        let b = other.aligned(whole_len, frac_len);
        proof {
            lemma_padded_value(
                (whole_len - self.whole.len()) as nat,
                self.whole@ + self.fraction@,
                (frac_len - self.fraction.len()) as nat,
            );
            lemma_padded_value(
                (whole_len - other.whole.len()) as nat,
                other.whole@ + other.fraction@,
                (frac_len - other.fraction.len()) as nat,
            );
        }
        compare_aligned(&a, &b)
    }

    /// Whether `self` is at most `other` in value.
    pub fn le(&self, other: &Decimal) -> (r: bool)
        ensures
            r == self@.le(other@),
    {
        let ghost places = finer_scale(self@, other@);
        proof {
            lemma_size_zero(self@, places);
            lemma_size_zero(other@, places);
        }
        if self.negative {
            if other.negative {
                match self.compare_size(other) {
                    Comparison::Less => false,
                    _ => true,
                }
            } else {
                true
            }
        } else {
            if other.negative {
                self.is_zero() && other.is_zero()
            } else {
                match self.compare_size(other) {
                    Comparison::Greater => false,
                    _ => true,
                }
            }
        }
    }

    /// Whether both numbers have the same value, however they are written.
    pub fn same_value(&self, other: &Decimal) -> (r: bool)
        ensures
            r == self@.same_value(other@),
    {
        self.le(other) && other.le(self)
    }

    /// The smaller of the two numbers; `self` where they are equal in value.
    pub fn min(self, other: Decimal) -> (r: Decimal)
        ensures
            r@ == self@.min(other@),
            r@.wf(),
    {
        proof {
            use_type_invariant(&self);
            use_type_invariant(&other);
        }
        if self.le(&other) {
            self
        } else {
            other
        }
    }

    /// Whether rounding to a whole number moves away from zero.
    #[verifier::loop_isolation(false)]
    fn rounds_up(&self) -> (r: bool)
        ensures
            r == self@.rounds_up(),
    {
        proof {
            use_type_invariant(self);
        }
        let n: usize = self.fraction.len();
        if n == 0 {
            return false;
        }
        let first: u8 = self.fraction[0];
        let ghost rest = self.fraction@.skip(1);
        proof {
            lemma_half(self.fraction@);
        }
        if first > 5 {
            return true;
        }
        if first < 5 {
            return false;
        }
        let mut k: usize = 1;
        while k < n
            invariant
                1 <= k <= n,
                forall|j: int| 0 <= j < k - 1 ==> #[trigger] rest[j] == 0,
            decreases n - k,
        {
            if self.fraction[k] != 0 {
                proof {
                    lemma_value_zero(rest);
                    assert(rest[k - 1] != 0);
                }
                return true;
            }
            k += 1;
        }
        proof {
            lemma_value_zero(rest);
        }
        let m: usize = self.whole.len();
        if m == 0 {
            false
        } else {
            self.whole[m - 1] % 2 == 1
        }
    }

    /// The number with zero decimal places: the nearest whole number, a tie
    /// going to the even one. A negative number keeps its minus sign even
    /// where it rounds to zero.
    pub fn rounded_text(&self) -> (r: String)
        ensures
            r@ == self@.rounded_text(),
    {
        proof {
            use_type_invariant(self);
        }
        let copy = slice_to_vec(self.whole.as_slice());
        let digits = if self.rounds_up() {
            successor(copy)
        } else {
            copy
        };
        let mut out = String::new();
        if self.negative {
            proof {
                reveal_strlit("-");
            }
            out.append("-");
        }
        if digits.len() == 0 {
            out.append(digit_str(0));
            return out;
        }
        let mut k: usize = 0;
        while k + 1 < digits.len() && digits[k] == 0
            invariant
                k < digits.len(),
                forall|j: int| 0 <= j < k ==> #[trigger] digits@[j] == 0,
            decreases digits.len() - k,
        {
            k += 1;
        }
        proof {
            let kept = digits@.skip(k as int);
            assert(digits@ =~= zeros(k as nat) + kept + zeros(0));
            lemma_padded_value(k as nat, kept, 0);
            lemma_canonical_text(kept);
        }
        append_digits(&mut out, &digits, k);
        out
    }

    /// The number written out: sign, whole digits and, where there are
    /// decimal places, a point and the fraction digits.
    pub fn to_text(&self) -> (r: String)
        ensures
            r@ == self@.text(),
    {
        proof {
            use_type_invariant(self);
        }
        let mut out = String::new();
        if self.negative {
            proof {
                reveal_strlit("-");
            }
            out.append("-");
        }
        append_digits(&mut out, &self.whole, 0);
        if self.fraction.len() > 0 {
            proof {
                reveal_strlit(".");
            }
            out.append(".");
            append_digits(&mut out, &self.fraction, 0);
        }
        out
    }
}

/// How twice a fraction stands to one, read off its first digit and the rest.
proof fn lemma_half(fraction: Seq<u8>)
    requires
        all_digits(fraction),
        fraction.len() > 0,
    ensures
        fraction[0] > 5 ==> 2 * digits_value(fraction) > pow10(fraction.len()),
        fraction[0] < 5 ==> 2 * digits_value(fraction) < pow10(fraction.len()),
        fraction[0] == 5 ==> 2 * digits_value(fraction) == pow10(fraction.len()) + 2
            * digits_value(fraction.skip(1)),
{
    let head = fraction.take(1);
    let rest = fraction.skip(1);
    assert(fraction =~= head + rest);
    lemma_value_concat(head, rest);
    lemma_value_bound(rest);
    assert(digits_value(head.drop_last()) == 0);
    let d = fraction[0] as int;
    let p = pow10(rest.len()) as int;
    let v = digits_value(rest) as int;
    assert(d > 5 ==> 2 * (d * p + v) > 10 * p) by (nonlinear_arith)
        requires
            0 <= v,
            p > 0,
    ;
    assert(d < 5 ==> 2 * (d * p + v) < 10 * p) by (nonlinear_arith)
        requires
            0 <= v < p,
            0 <= d,
    ;
    assert(d == 5 ==> 2 * (d * p + v) == 10 * p + 2 * v) by (nonlinear_arith);
}

/// A numeral has size zero at every place exactly if its magnitude is zero.
proof fn lemma_size_zero(n: Numeral, places: nat)
    ensures
        n.size_at(places) == 0 <==> n.is_zero(),
{
    let p = pow10((places - n.scale()) as nat);
    let m = n.magnitude();
    lemma_pow10_positive((places - n.scale()) as nat);
    assert(m * p == 0 <==> m == 0) by (nonlinear_arith)
        requires
            p > 0,
            m >= 0,
    ;
}

} // verus!

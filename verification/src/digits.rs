//! Digit sequences and the natural numbers they spell.

use vstd::prelude::*;

verus! {

/// Ten to the power `n`.
pub open spec fn pow10(n: nat) -> nat
    decreases n,
{
    if n == 0 {
        1
    } else {
        10 * pow10((n - 1) as nat)
    }
}

/// Every element is a decimal digit, `0` to `9`.
pub open spec fn all_digits(s: Seq<u8>) -> bool {
    forall|i: int| 0 <= i < s.len() ==> #[trigger] s[i] <= 9
}

/// The natural number that the digits spell, most significant digit first.
/// The empty sequence spells zero.
pub open spec fn digits_value(s: Seq<u8>) -> nat
    decreases s.len(),
{
    if s.len() == 0 {
        0
    } else {
        10 * digits_value(s.drop_last()) + s.last() as nat
    }
}

/// `n` zero digits.
pub open spec fn zeros(n: nat) -> Seq<u8> {
    Seq::new(n, |i: int| 0u8)
}

/// A power of ten is positive.
pub proof fn lemma_pow10_positive(n: nat)
    ensures
        pow10(n) > 0,
    decreases n,
{
    if n > 0 {
        lemma_pow10_positive((n - 1) as nat);
    }
}

/// Exponents add where powers of ten are multiplied.
pub proof fn lemma_pow10_add(a: nat, b: nat)
    ensures
        pow10(a + b) == pow10(a) * pow10(b),
    decreases b,
{
    if b == 0 {
        assert(pow10(a) * 1 == pow10(a));
    } else {
        lemma_pow10_add(a, (b - 1) as nat);
        assert(pow10(a) * (10 * pow10((b - 1) as nat)) == 10 * (pow10(a) * pow10((b - 1) as nat)))
            by (nonlinear_arith);
    }
}

/// Appending digits shifts what came before by one place per digit.
pub proof fn lemma_value_concat(s: Seq<u8>, t: Seq<u8>)
    ensures
        digits_value(s + t) == digits_value(s) * pow10(t.len()) + digits_value(t),
    decreases t.len(),
{
    if t.len() == 0 {
        assert(digits_value(s) * 1 == digits_value(s));
    } else {
        let init = t.drop_last();
        lemma_value_concat(s, init);
        assert((s + t).drop_last() =~= s + init);
        let a = digits_value(s) as int;
        let p = pow10(init.len()) as int;
        let b = digits_value(init) as int;
        assert(10 * (a * p + b) == a * (10 * p) + 10 * b) by (nonlinear_arith);
    }
}

/// A run of `n` digits spells a number below ten to the `n`.
pub proof fn lemma_value_bound(s: Seq<u8>)
    requires
        all_digits(s),
    ensures
        digits_value(s) < pow10(s.len()),
    decreases s.len(),
{
    if s.len() > 0 {
        lemma_value_bound(s.drop_last());
    }
}

/// Only zero digits spell zero.
pub proof fn lemma_value_zero(s: Seq<u8>)
    ensures
        digits_value(s) == 0 <==> (forall|i: int| 0 <= i < s.len() ==> #[trigger] s[i] == 0),
    decreases s.len(),
{
    if s.len() > 0 {
        lemma_value_zero(s.drop_last());
        if digits_value(s) == 0 {
            assert forall|i: int| 0 <= i < s.len() implies #[trigger] s[i] == 0 by {
                if i < s.len() - 1 {
                    assert(s.drop_last()[i] == 0);
                }
            }
        }
    }
}

/// Zero digits spell zero.
pub proof fn lemma_zeros_value(n: nat)
    ensures
        all_digits(zeros(n)),
        digits_value(zeros(n)) == 0,
{
    lemma_value_zero(zeros(n));
}

/// Zeros in front change nothing; each zero behind multiplies by ten.
pub proof fn lemma_padded_value(front: nat, s: Seq<u8>, back: nat)
    ensures
        digits_value(zeros(front) + s + zeros(back)) == digits_value(s) * pow10(back),
{
    lemma_zeros_value(front);
    lemma_zeros_value(back);
    lemma_value_concat(zeros(front), s);
    lemma_value_concat(zeros(front) + s, zeros(back));
}

/// Of two equally long digit runs that agree up to `i`, the one with the smaller
/// digit at `i` spells the smaller number.
pub proof fn lemma_first_difference_decides(x: Seq<u8>, y: Seq<u8>, i: int)
    requires
        x.len() == y.len(),
        all_digits(x),
        all_digits(y),
        0 <= i < x.len(),
        forall|j: int| 0 <= j < i ==> x[j] == y[j],
        x[i] < y[i],
    ensures
        digits_value(x) < digits_value(y),
{
    let xh = x.take(i + 1);
    let yh = y.take(i + 1);
    let xt = x.skip(i + 1);
    let yt = y.skip(i + 1);
    assert(x =~= xh + xt);
    assert(y =~= yh + yt);
    lemma_value_concat(xh, xt);
    lemma_value_concat(yh, yt);
    lemma_value_bound(xt);
    assert(xh.drop_last() =~= yh.drop_last());
    let p = pow10(xt.len()) as int;
    let a = digits_value(xh) as int;
    let b = digits_value(yh) as int;
    assert((a + 1) * p <= b * p) by (nonlinear_arith)
        requires
            a + 1 <= b,
            p >= 0,
    ;
    assert((a + 1) * p == a * p + p) by (nonlinear_arith);
}

/// How two numbers stand to each other.
#[derive(Clone, Copy, Debug, PartialEq, Eq, Structural)]
pub enum Comparison {
    Less,
    Equal,
    Greater,
}

/// What `Comparison` says of two integers.
pub open spec fn comparison_of(a: int, b: int) -> Comparison {
    if a < b {
        Comparison::Less
    } else if a == b {
        Comparison::Equal
    } else {
        Comparison::Greater
    }
}

/// Compares the numbers that two equally long digit runs spell.
pub(crate) fn compare_aligned(x: &Vec<u8>, y: &Vec<u8>) -> (r: Comparison)
    requires
        x.len() == y.len(),
        all_digits(x@),
        all_digits(y@),
    ensures
        r == comparison_of(digits_value(x@) as int, digits_value(y@) as int),
{
    let n: usize = x.len();
    let mut i: usize = 0;
    while i < n
        invariant
            i <= n,
            n == x.len(),
            n == y.len(),
            all_digits(x@),
            all_digits(y@),
            forall|j: int| 0 <= j < i ==> x@[j] == y@[j],
        decreases n - i,
    {
        if x[i] < y[i] {
            proof {
                lemma_first_difference_decides(x@, y@, i as int);
            }
            return Comparison::Less;
        }
        if x[i] > y[i] {
            proof {
                lemma_first_difference_decides(y@, x@, i as int);
            }
            return Comparison::Greater;
        }
        i += 1;
    }
    assert(x@ =~= y@);
    Comparison::Equal
}

/// `n` nine digits.
pub open spec fn nines(n: nat) -> Seq<u8> {
    Seq::new(n, |i: int| 9u8)
}

/// `n` nines spell the number just below ten to the `n`.
pub proof fn lemma_nines_value(n: nat)
    ensures
        all_digits(nines(n)),
        digits_value(nines(n)) + 1 == pow10(n),
    decreases n,
{
    if n > 0 {
        lemma_nines_value((n - 1) as nat);
        assert(nines(n).drop_last() =~= nines((n - 1) as nat));
    }
}

/// The digits of the next number: trailing nines turn to zeros and the digit
/// before them goes up by one, or a leading one is put in front of all zeros.
pub(crate) fn successor(digits: Vec<u8>) -> (r: Vec<u8>)
    requires
        all_digits(digits@),
    ensures
        all_digits(r@),
        digits_value(r@) == digits_value(digits@) + 1,
        digits@ == nines(digits@.len()) ==> r.len() == digits.len() + 1,
        digits@ != nines(digits@.len()) ==> r.len() == digits.len(),
{
    let ghost orig = digits@;
    let mut v = digits;
    let n: usize = v.len();
    let mut i: usize = n;
    while i > 0 && v[i - 1] == 9
        invariant
            i <= n,
            n == orig.len(),
            all_digits(orig),
            v.len() == n,
            forall|j: int| 0 <= j < i ==> #[trigger] v@[j] == orig[j],
            forall|j: int| i <= j < n ==> #[trigger] v@[j] == 0,
            forall|j: int| i <= j < n ==> #[trigger] orig[j] == 9,
        decreases i,
    {
        v.set(i - 1, 0);
        i -= 1;
    }
    let ghost k = (n - i) as nat;
    proof {
        assert(orig.skip(i as int) =~= nines(k));
        assert(orig =~= orig.take(i as int) + orig.skip(i as int));
        lemma_value_concat(orig.take(i as int), nines(k));
        lemma_nines_value(k);
        lemma_zeros_value(k);
    }
    if i == 0 {
        v.insert(0, 1);
        proof {
            assert(orig.take(0) =~= Seq::<u8>::empty());
            assert(v@ =~= seq![1u8] + zeros(k));
            lemma_value_concat(seq![1u8], zeros(k));
            assert(seq![1u8].drop_last() =~= Seq::<u8>::empty());
            assert(1 * pow10(k) == pow10(k));
        }
    } else {
        let d: u8 = v[i - 1];
        v.set(i - 1, d + 1);
        proof {
            let head = orig.take(i as int);
            let bumped = head.update(i - 1, (d + 1) as u8);
            assert(v@ =~= bumped + zeros(k));
            lemma_value_concat(bumped, zeros(k));
            assert(bumped.drop_last() =~= head.drop_last());
            let a = digits_value(head) as int;
            let p = pow10(k) as int;
            assert((a + 1) * p == a * p + p) by (nonlinear_arith);
        }
    }
    v
}

/// The character for a digit.
pub open spec fn digit_char(d: u8) -> char {
    ((d + 48) as u8) as char
}

/// The characters for a run of digits.
pub open spec fn digits_text(s: Seq<u8>) -> Seq<char> {
    Seq::new(s.len(), |i: int| digit_char(s[i]))
}

/// A natural number in decimal, without leading zeros; zero is `0`.
pub open spec fn nat_text(n: nat) -> Seq<char>
    decreases n,
{
    if n < 10 {
        seq![digit_char(n as u8)]
    } else {
        nat_text(n / 10).push(digit_char((n % 10) as u8))
    }
}

/// At least one digit, and no leading zero unless it is the only digit.
pub open spec fn is_canonical(s: Seq<u8>) -> bool {
    &&& all_digits(s)
    &&& s.len() >= 1
    &&& (s.len() == 1 || s[0] != 0)
}

/// A canonical digit run is the decimal text of the number it spells.
pub proof fn lemma_canonical_text(s: Seq<u8>)
    requires
        is_canonical(s),
    ensures
        digits_text(s) == nat_text(digits_value(s)),
    decreases s.len(),
{
    let init = s.drop_last();
    if s.len() == 1 {
        assert(digits_text(s) =~= seq![digit_char(s[0])]);
    } else {
        lemma_canonical_text(init);
        lemma_value_zero(init);
        assert(digits_value(init) >= 1);
        assert(digits_text(s) =~= digits_text(init).push(digit_char(s.last())));
    }
}

} // verus!

//! Rendering a fraction as text.
use crate::fraction::Fraction;
use crate::ratio::Ratio;
use crate::signed::{magnitude, with_sign};
use vstd::arithmetic::div_mod::lemma_fundamental_div_mod;
use vstd::math::abs;
use vstd::prelude::*;

verus! {

/// The character of the decimal digit `d`.
pub open spec fn digit(d: nat) -> char {
    seq!['0', '1', '2', '3', '4', '5', '6', '7', '8', '9'][d as int]
}

/// The decimal digits of `n`, most significant first, without leading zeros.
pub open spec fn digits(n: nat) -> Seq<char>
    decreases n,
{
    if n < 10 {
        seq![digit(n)]
    } else {
        digits(n / 10).push(digit(n % 10))
    }
}

/// The decimal numeral of `n`: a minus sign for a negative number, then the
/// digits of its magnitude.
pub open spec fn decimal(n: int) -> Seq<char> {
    if n < 0 {
        seq!['-'] + digits(abs(n))
    } else {
        digits(abs(n))
    }
}

impl Ratio {
    /// The numerator, a slash, and the denominator.
    pub open spec fn plain_text(self) -> Seq<char> {
        decimal(self.num) + seq!['/'] + decimal(self.den)
    }

    /// The value rounded toward zero.
    pub open spec fn whole_part(self) -> int {
        if self.num >= 0 {
            self.num / self.den
        } else {
            -((-self.num) / self.den)
        }
    }

    /// The numerator of what is left of the value beside its whole part. It
    /// has the sign of the ratio and is smaller than the denominator in
    /// magnitude.
    pub open spec fn proper_part(self) -> int {
        self.num - self.whole_part() * self.den
    }

    /// A ratio smaller than one in magnitude as itself; any other as its
    /// whole part, followed, unless nothing is left, by a space and the
    /// proper part over the denominator.
    pub open spec fn mixed_text(self) -> Seq<char> {
        if abs(self.num) < self.den {
            self.plain_text()
        } else if self.proper_part() == 0 {
            decimal(self.whole_part())
        } else {
            decimal(self.whole_part()) + seq![' '] + decimal(self.proper_part()) + seq!['/']
                + decimal(self.den)
        }
    }
}

/// Formats one integer with `format!` and `{}`, which writes a signed
/// integer as its decimal numeral.
#[verifier::external_body]
fn whole_text(whole: i128) -> (s: String)
    ensures
        s@ == decimal(whole as int),
{
    format!("{}", whole)
}

/// Formats numerator and denominator with `format!`, each by `{}` as its
/// decimal numeral, with a slash between them.
#[verifier::external_body]
fn parts_text(num: i128, den: u128) -> (s: String)
    ensures
        s@ == decimal(num as int) + seq!['/'] + decimal(den as int),
{
    format!("{}/{}", num, den)
}

/// Formats a whole part, a space, and a numerator over a denominator with
/// `format!`, each integer by `{}` as its decimal numeral.
#[verifier::external_body]
fn mixed_parts_text(whole: i128, num: i128, den: u128) -> (s: String)
    ensures
        s@ == decimal(whole as int) + seq![' '] + decimal(num as int) + seq!['/'] + decimal(
            den as int,
        ),
{
    format!("{} {}/{}", whole, num, den)
}

impl Fraction {
    /// The fraction as `numerator/denominator`.
    pub fn to_string(&self) -> (s: String)
        ensures
            s@ == self@.plain_text(),
    {
        parts_text(self.num, self.den)
    }

    /// The fraction as a mixed number where its magnitude is at least one.
    pub fn print_as_reg(&self) -> (s: String)
        ensures
            s@ == self@.mixed_text(),
    {
        proof {
            use_type_invariant(self);
        }
        let size: u128 = magnitude(self.num);
        if size < self.den {
            return parts_text(self.num, self.den);
        }
        proof {
            lemma_fundamental_div_mod(size as int, self.den as int);
            let quotient = (size / self.den) as int;
            assert(quotient <= size && quotient * self.den == size - size % self.den && (-quotient)
                * self.den == size % self.den - size) by (nonlinear_arith)
                requires
                    size == self.den * quotient + size % self.den,
                    self.den > 0,
                    quotient >= 0,
            ;
        }
        let whole: i128 = with_sign(self.num < 0, size / self.den);
        let rest: u128 = size % self.den;
        assert(whole == self@.whole_part());
        assert(self@.proper_part() == if self.num < 0 {
            -(rest as int)
        } else {
            rest as int
        });
        if rest == 0 {
            whole_text(whole)
        } else {
            mixed_parts_text(whole, with_sign(self.num < 0, rest), self.den)
        }
    }
}

} // verus!

//! The exact fraction type: construction, reduction and rounding.
use crate::euclid;
use crate::ratio::{lemma_reduce, Ratio};
use crate::signed::{magnitude, with_sign};
use vstd::arithmetic::div_mod::{lemma_fundamental_div_mod, lemma_fundamental_div_mod_converse};
use vstd::prelude::*;

pub mod arith;
pub mod order;
pub mod text;

verus! {

/// A denominator of zero was asked for, directly or through the reciprocal
/// of a fraction whose numerator is zero.
#[derive(Clone, Copy, Debug, PartialEq, Eq, Structural)]
pub struct DivisionByZeroError;

/// A signed numerator over a strictly positive denominator.
///
/// Values are immutable: every operation returns a new fraction. The sign is
/// carried by the numerator alone.
#[derive(Clone, Copy, Debug)]
pub struct Fraction {
    num: i128,
    den: u128,
}

/// Fractions whose parts are below this bound in magnitude can always be
/// added, subtracted, multiplied, divided and compared.
pub const HALF_WIDTH: u128 = 0x8000_0000_0000_0000;

/// Numerator and denominator are both below [`HALF_WIDTH`] in magnitude.
pub open spec fn half_width(a: Ratio) -> bool {
    -HALF_WIDTH < a.num < HALF_WIDTH && a.den < HALF_WIDTH
}

impl View for Fraction {
    type V = Ratio;

    closed spec fn view(&self) -> Ratio {
        Ratio { num: self.num as int, den: self.den as int }
    }
}

impl Fraction {
    /// Every fraction has a strictly positive denominator.
    #[verifier::type_invariant]
    pub open spec fn well_formed(self) -> bool {
        self@.wf()
    }

    /// The fraction that a ratio describes, provided that the ratio's parts
    /// are representable.
    pub closed spec fn of(r: Ratio) -> Fraction {
        Fraction { num: r.num as i128, den: r.den as u128 }
    }

    /// The parts of a ratio fit the fraction's fields.
    pub open spec fn representable(r: Ratio) -> bool {
        &&& i128::MIN <= r.num <= i128::MAX
        &&& 0 < r.den <= u128::MAX
    }

    /// A fraction is determined by its view, and the view of every fraction
    /// has representable parts.
    pub proof fn lemma_view(self)
        ensures
            Fraction::of(self@) == self,
            i128::MIN <= self@.num <= i128::MAX,
            0 <= self@.den <= u128::MAX,
    {
    }

    /// The fraction of a representable ratio has that ratio as its view.
    pub proof fn lemma_of(r: Ratio)
        requires
            Fraction::representable(r),
        ensures
            Fraction::of(r)@ == r,
    {
    }

    /// Reducing a representable ratio leaves it representable.
    pub proof fn lemma_reduce_representable(r: Ratio)
        requires
            Fraction::representable(r),
        ensures
            Fraction::representable(r.reduce()),
            Fraction::of(r.reduce())@ == r.reduce(),
    {
        lemma_reduce(r);
    }

    /// The fraction `num/den` reduced to lowest terms.
    pub fn new(num: i128, den: u128) -> (r: Result<Fraction, DivisionByZeroError>)
        ensures
            r is Err <==> den == 0,
            r matches Ok(f) ==> f@ == (Ratio { num: num as int, den: den as int }).reduce()
                && f@.canonical(),
    {
        match Fraction::new_no_simp(num, den) {
            Ok(f) => Ok(f.simplify()),
            Err(e) => Err(e),
        }
    }

    /// The fraction `num/den` exactly as given, without reduction.
    pub fn new_no_simp(num: i128, den: u128) -> (r: Result<Fraction, DivisionByZeroError>)
        ensures
            r is Err <==> den == 0,
            r matches Ok(f) ==> f@ == (Ratio { num: num as int, den: den as int }) && f@.wf(),
    {
        if den == 0 {
            Err(DivisionByZeroError)
        } else {
            Ok(Fraction { num, den })
        }
    }

    /// The same value in lowest terms.
    pub fn simplify(&self) -> (r: Fraction)
        ensures
            r@ == self@.reduce(),
            r@.canonical(),
            r@.same_value(self@),
    {
        proof {
            use_type_invariant(self);
            lemma_reduce(self@);
        }
        let g: u128 = euclid::gcd(magnitude(self.num), self.den);
        let n: u128 = magnitude(self.num) / g;
        let d: u128 = self.den / g;
        Fraction { num: with_sign(self.num < 0, n), den: d }
    }

    /// The integer `whole` as a fraction.
    pub fn from_whole(whole: i128) -> (r: Fraction)
        ensures
            r@ == Ratio::whole(whole as int),
            r@.canonical(),
    {
        proof {
            reveal_with_fuel(crate::divisors::gcd, 3);
        }
        Fraction { num: whole, den: 1 }
    }

    /// Both parts are below [`HALF_WIDTH`] in magnitude.
    pub fn is_half_width(&self) -> (r: bool)
        ensures
            r == half_width(self@),
    {
        magnitude(self.num) < HALF_WIDTH && self.den < HALF_WIDTH
    }

    /// The numerator, which carries the sign.
    pub fn numerator(&self) -> (n: i128)
        ensures
            n == self@.num,
    {
        self.num
    }

    /// The denominator, which is never zero.
    pub fn denominator(&self) -> (d: u128)
        ensures
            d == self@.den,
            d > 0,
    {
        proof {
            use_type_invariant(self);
        }
        self.den
    }

    /// The greatest integer that is not above the fraction.
    pub fn frac_floor(self) -> (q: i128)
        ensures
            q == self@.floor(),
    {
        proof {
            use_type_invariant(self);
        }
        let m: u128 = magnitude(self.num);
        let whole: u128 = m / self.den;
        let rest: u128 = m % self.den;
        proof {
            lemma_fundamental_div_mod(m as int, self.den as int);
            assert(whole <= m) by (nonlinear_arith)
                requires
                    m == self.den * whole + rest,
                    self.den > 0,
            ;
        }
        if self.num >= 0 {
            whole as i128
        } else if rest == 0 {
            proof {
                assert(self.num == -(whole as int) * self.den + 0) by (nonlinear_arith)
                    requires
                        -(self.num as int) == self.den * whole,
                ;
                lemma_fundamental_div_mod_converse(
                    self.num as int,
                    self.den as int,
                    -(whole as int),
                    0,
                );
            }
            with_sign(true, whole)
        } else {
            proof {
                assert(self.num == (-(whole as int) - 1) * self.den + (self.den - rest)
                    && whole < 0x8000_0000_0000_0000_0000_0000_0000_0000) by (nonlinear_arith)
                    requires
                        -(self.num as int) == self.den * whole + rest,
                        -(self.num as int) <= 0x8000_0000_0000_0000_0000_0000_0000_0000,
                        0 < rest < self.den,
                ;
                lemma_fundamental_div_mod_converse(
                    self.num as int,
                    self.den as int,
                    -(whole as int) - 1,
                    self.den - rest,
                );
            }
            with_sign(true, whole + 1)
        }
    }
}

} // verus!

//! Addition, subtraction, multiplication, division and negation.
//!
//! Each operation forms the unreduced result in 128-bit integers and then
//! reduces it, so each asks that the unreduced parts are representable.
use crate::fraction::{half_width, DivisionByZeroError, Fraction};
use crate::ratio::{
    lemma_product_respects_value, lemma_product_wf, lemma_reciprocal, lemma_reduce,
    lemma_reduce_decides_value, Ratio,
};
use crate::signed::{fits_i128, fits_u128, magnitude, scale, with_sign};
use core::ops::{Add, AddAssign, Div, Mul, Neg, Sub, SubAssign};
use vstd::prelude::*;
use vstd::std_specs::ops::{AddSpecImpl, DivSpecImpl, MulSpecImpl, NegSpecImpl, SubSpecImpl};

verus! {

/// The sum of `a` and `b` can be formed without overflow: directly over a
/// shared denominator, by cross multiplication otherwise.
pub open spec fn sum_fits(a: Ratio, b: Ratio) -> bool {
    if a.den == b.den {
        fits_i128(a.num + b.num)
    } else {
        &&& fits_i128(a.num * b.den)
        &&& fits_i128(b.num * a.den)
        &&& fits_i128(a.num * b.den + b.num * a.den)
        &&& fits_u128(a.den * b.den)
    }
}

/// The difference of `a` and `b` can be formed without overflow.
pub open spec fn difference_fits(a: Ratio, b: Ratio) -> bool {
    if a.den == b.den {
        fits_i128(a.num - b.num)
    } else {
        &&& fits_i128(a.num * b.den)
        &&& fits_i128(b.num * a.den)
        &&& fits_i128(a.num * b.den - b.num * a.den)
        &&& fits_u128(a.den * b.den)
    }
}

/// The product of `a` and `b` can be formed without overflow.
pub open spec fn product_fits(a: Ratio, b: Ratio) -> bool {
    &&& fits_i128(a.num * b.num)
    &&& fits_u128(a.den * b.den)
}

/// The quotient of `a` by a nonzero `b` can be formed without overflow: the
/// reciprocal of `b` is representable, and so is the product of `a` with
/// that reciprocal in lowest terms.
pub open spec fn quotient_fits(a: Ratio, b: Ratio) -> bool {
    &&& fits_i128(b.reciprocal().num)
    &&& product_fits(a, b.reciprocal().reduce())
}

/// Fractions of half width can always be combined: the sum, the difference
/// and the product can be formed, and the quotient by a nonzero divisor too.
pub proof fn lemma_half_width_combines(a: Ratio, b: Ratio)
    requires
        a.wf(),
        b.wf(),
        half_width(a),
        half_width(b),
    ensures
        sum_fits(a, b),
        difference_fits(a, b),
        product_fits(a, b),
        b.num != 0 ==> quotient_fits(a, b),
{
    lemma_bounded_products(a.num, a.den, b.num, b.den);
    if b.num != 0 {
        let flipped = b.reciprocal();
        lemma_reciprocal(b);
        lemma_reduce(flipped);
        lemma_bounded_products(a.num, a.den, flipped.reduce().num, flipped.reduce().den);
    }
}

/// Products of two integers below `2^63` in magnitude stay below `2^126`,
/// and so their sums and differences fit 128 bits.
proof fn lemma_bounded_products(p: int, q: int, r: int, s: int)
    requires
        -0x8000_0000_0000_0000 < p < 0x8000_0000_0000_0000,
        0 < q < 0x8000_0000_0000_0000,
        -0x8000_0000_0000_0000 < r < 0x8000_0000_0000_0000,
        0 < s < 0x8000_0000_0000_0000,
    ensures
        -0x4000_0000_0000_0000_0000_0000_0000_0000 < p * s
            < 0x4000_0000_0000_0000_0000_0000_0000_0000,
        -0x4000_0000_0000_0000_0000_0000_0000_0000 < r * q
            < 0x4000_0000_0000_0000_0000_0000_0000_0000,
        -0x4000_0000_0000_0000_0000_0000_0000_0000 < p * r
            < 0x4000_0000_0000_0000_0000_0000_0000_0000,
        0 < q * s < 0x4000_0000_0000_0000_0000_0000_0000_0000,
{
    assert(-0x4000_0000_0000_0000_0000_0000_0000_0000 < p * s
        < 0x4000_0000_0000_0000_0000_0000_0000_0000
        && -0x4000_0000_0000_0000_0000_0000_0000_0000 < r * q
        < 0x4000_0000_0000_0000_0000_0000_0000_0000
        && -0x4000_0000_0000_0000_0000_0000_0000_0000 < p * r
        < 0x4000_0000_0000_0000_0000_0000_0000_0000 && 0 < q * s
        < 0x4000_0000_0000_0000_0000_0000_0000_0000) by (nonlinear_arith)
        requires
            -0x8000_0000_0000_0000 < p < 0x8000_0000_0000_0000,
            0 < q < 0x8000_0000_0000_0000,
            -0x8000_0000_0000_0000 < r < 0x8000_0000_0000_0000,
            0 < s < 0x8000_0000_0000_0000,
    ;
}

impl Fraction {
    /// The reciprocal in lowest terms, with the sign kept on the numerator.
    pub fn reciprocal(self) -> (r: Result<Fraction, DivisionByZeroError>)
        requires
            self@.num != 0 ==> fits_i128(self@.reciprocal().num),
        ensures
            r is Err <==> self@.num == 0,
            r matches Ok(f) ==> f@ == self@.reciprocal().reduce() && f@.canonical(),
    {
        proof {
            use_type_invariant(self);
        }
        if self.num == 0 {
            Err(DivisionByZeroError)
        } else {
            let flipped = Fraction {
                num: with_sign(self.num < 0, self.den),
                den: magnitude(self.num),
            };
            Ok(flipped.simplify())
        }
    }
}

impl AddSpecImpl<Fraction> for Fraction {
    open spec fn obeys_add_spec() -> bool {
        true
    }

    open spec fn add_req(self, rhs: Fraction) -> bool {
        sum_fits(self@, rhs@)
    }

    open spec fn add_spec(self, rhs: Fraction) -> Fraction {
        Fraction::of(self@.sum(rhs@).reduce())
    }
}

impl Add<Fraction> for Fraction {
    type Output = Fraction;

    /// The sum in lowest terms.
    fn add(self, rhs: Fraction) -> (r: Fraction)
        ensures
            r@ == self@.sum(rhs@).reduce(),
            r@.canonical(),
    {
        proof {
            use_type_invariant(self);
            use_type_invariant(rhs);
        }
        let unreduced = if self.den == rhs.den {
            Fraction { num: self.num + rhs.num, den: self.den }
        } else {
            assert(self.den * rhs.den > 0) by (nonlinear_arith)
                requires
                    self.den > 0,
                    rhs.den > 0,
            ;
            Fraction {
                num: scale(self.num, rhs.den) + scale(rhs.num, self.den),
                den: self.den * rhs.den,
            }
        };
        proof {
            assert(self@.sum(rhs@).wf() && unreduced@.same_value(self@.sum(rhs@)))
                by (nonlinear_arith)
                requires
                    self@.den > 0,
                    rhs@.den > 0,
                    unreduced@ == self@.sum(rhs@) || (self@.den == rhs@.den && unreduced@ == (Ratio {
                        num: self@.num + rhs@.num,
                        den: self@.den,
                    })),
            ;
            lemma_reduce_decides_value(unreduced@, self@.sum(rhs@));
        }
        let r = unreduced.simplify();
        proof {
            r.lemma_view();
        }
        r
    }
}

impl AddSpecImpl<i128> for Fraction {
    open spec fn obeys_add_spec() -> bool {
        true
    }

    open spec fn add_req(self, rhs: i128) -> bool {
        sum_fits(self@, Ratio::whole(rhs as int))
    }

    open spec fn add_spec(self, rhs: i128) -> Fraction {
        Fraction::of(self@.sum(Ratio::whole(rhs as int)).reduce())
    }
}

impl Add<i128> for Fraction {
    type Output = Fraction;

    /// The sum with an integer, in lowest terms.
    fn add(self, rhs: i128) -> (r: Fraction)
        ensures
            r@ == self@.sum(Ratio::whole(rhs as int)).reduce(),
            r@.canonical(),
    {
        self + Fraction::from_whole(rhs)
    }
}

impl SubSpecImpl<Fraction> for Fraction {
    open spec fn obeys_sub_spec() -> bool {
        true
    }

    open spec fn sub_req(self, rhs: Fraction) -> bool {
        difference_fits(self@, rhs@)
    }

    open spec fn sub_spec(self, rhs: Fraction) -> Fraction {
        Fraction::of(self@.difference(rhs@).reduce())
    }
}

impl Sub<Fraction> for Fraction {
    type Output = Fraction;

    /// The difference in lowest terms.
    fn sub(self, rhs: Fraction) -> (r: Fraction)
        ensures
            r@ == self@.difference(rhs@).reduce(),
            r@.canonical(),
    {
        proof {
            use_type_invariant(self);
            use_type_invariant(rhs);
        }
        let unreduced = if self.den == rhs.den {
            Fraction { num: self.num - rhs.num, den: self.den }
        } else {
            assert(self.den * rhs.den > 0) by (nonlinear_arith)
                requires
                    self.den > 0,
                    rhs.den > 0,
            ;
            Fraction {
                num: scale(self.num, rhs.den) - scale(rhs.num, self.den),
                den: self.den * rhs.den,
            }
        };
        proof {
            assert(self@.difference(rhs@).wf() && unreduced@.same_value(self@.difference(rhs@)))
                by (nonlinear_arith)
                requires
                    self@.den > 0,
                    rhs@.den > 0,
                    unreduced@ == self@.difference(rhs@) || (self@.den == rhs@.den && unreduced@
                        == (Ratio { num: self@.num - rhs@.num, den: self@.den })),
            ;
            lemma_reduce_decides_value(unreduced@, self@.difference(rhs@));
        }
        let r = unreduced.simplify();
        proof {
            r.lemma_view();
        }
        r
    }
}

impl SubSpecImpl<i128> for Fraction {
    open spec fn obeys_sub_spec() -> bool {
        true
    }

    open spec fn sub_req(self, rhs: i128) -> bool {
        difference_fits(self@, Ratio::whole(rhs as int))
    }

    open spec fn sub_spec(self, rhs: i128) -> Fraction {
        Fraction::of(self@.difference(Ratio::whole(rhs as int)).reduce())
    }
}

impl Sub<i128> for Fraction {
    type Output = Fraction;

    /// The difference with an integer, in lowest terms.
    fn sub(self, rhs: i128) -> (r: Fraction)
        ensures
            r@ == self@.difference(Ratio::whole(rhs as int)).reduce(),
            r@.canonical(),
    {
        self - Fraction::from_whole(rhs)
    }
}

impl MulSpecImpl<Fraction> for Fraction {
    open spec fn obeys_mul_spec() -> bool {
        true
    }

    open spec fn mul_req(self, rhs: Fraction) -> bool {
        product_fits(self@, rhs@)
    }

    open spec fn mul_spec(self, rhs: Fraction) -> Fraction {
        Fraction::of(self@.product(rhs@).reduce())
    }
}

impl Mul<Fraction> for Fraction {
    type Output = Fraction;

    /// The product in lowest terms.
    fn mul(self, rhs: Fraction) -> (r: Fraction)
        ensures
            r@ == self@.product(rhs@).reduce(),
            r@.canonical(),
    {
        proof {
            use_type_invariant(self);
            use_type_invariant(rhs);
            assert(self.den * rhs.den > 0) by (nonlinear_arith)
                requires
                    self.den > 0,
                    rhs.den > 0,
            ;
        }
        let unreduced = Fraction { num: self.num * rhs.num, den: self.den * rhs.den };
        let r = unreduced.simplify();
        proof {
            r.lemma_view();
        }
        r
    }
}

impl MulSpecImpl<i128> for Fraction {
    open spec fn obeys_mul_spec() -> bool {
        true
    }

    open spec fn mul_req(self, rhs: i128) -> bool {
        product_fits(self@, Ratio::whole(rhs as int))
    }

    open spec fn mul_spec(self, rhs: i128) -> Fraction {
        Fraction::of(self@.product(Ratio::whole(rhs as int)).reduce())
    }
}

impl Mul<i128> for Fraction {
    type Output = Fraction;

    /// The product with an integer, in lowest terms.
    fn mul(self, rhs: i128) -> (r: Fraction)
        ensures
            r@ == self@.product(Ratio::whole(rhs as int)).reduce(),
            r@.canonical(),
    {
        self * Fraction::from_whole(rhs)
    }
}

impl MulSpecImpl<u128> for Fraction {
    open spec fn obeys_mul_spec() -> bool {
        true
    }

    open spec fn mul_req(self, rhs: u128) -> bool {
        product_fits(self@, Ratio::whole(rhs as int))
    }

    open spec fn mul_spec(self, rhs: u128) -> Fraction {
        Fraction::of(self@.product(Ratio::whole(rhs as int)).reduce())
    }
}

impl Mul<u128> for Fraction {
    type Output = Fraction;

    /// The product with an unsigned integer, in lowest terms.
    fn mul(self, rhs: u128) -> (r: Fraction)
        ensures
            r@ == self@.product(Ratio::whole(rhs as int)).reduce(),
            r@.canonical(),
    {
        proof {
            use_type_invariant(self);
        }
        let unreduced = Fraction { num: scale(self.num, rhs), den: self.den };
        let r = unreduced.simplify();
        proof {
            r.lemma_view();
        }
        r
    }
}

impl NegSpecImpl for Fraction {
    open spec fn obeys_neg_spec() -> bool {
        true
    }

    open spec fn neg_req(self) -> bool {
        fits_i128(-self@.num)
    }

    open spec fn neg_spec(self) -> Fraction {
        Fraction::of(self@.negation().reduce())
    }
}

impl Neg for Fraction {
    type Output = Fraction;

    /// The additive inverse in lowest terms.
    fn neg(self) -> (r: Fraction)
        ensures
            r@ == self@.negation().reduce(),
            r@.canonical(),
    {
        proof {
            use_type_invariant(self);
        }
        let unreduced = Fraction { num: -self.num, den: self.den };
        let r = unreduced.simplify();
        proof {
            r.lemma_view();
        }
        r
    }
}

impl DivSpecImpl<Fraction> for Fraction {
    open spec fn obeys_div_spec() -> bool {
        true
    }

    open spec fn div_req(self, rhs: Fraction) -> bool {
        rhs@.num != 0 ==> quotient_fits(self@, rhs@)
    }

    open spec fn div_spec(self, rhs: Fraction) -> Result<Fraction, DivisionByZeroError> {
        if rhs@.num == 0 {
            Err(DivisionByZeroError)
        } else {
            Ok(Fraction::of(self@.quotient(rhs@).reduce()))
        }
    }
}

impl Div<Fraction> for Fraction {
    type Output = Result<Fraction, DivisionByZeroError>;

    /// The quotient in lowest terms: the product with the reciprocal of
    /// `rhs`, which does not exist when the numerator of `rhs` is zero.
    fn div(self, rhs: Fraction) -> (r: Result<Fraction, DivisionByZeroError>)
        ensures
            r is Err <==> rhs@.num == 0,
            r matches Ok(f) ==> f@ == self@.quotient(rhs@).reduce() && f@.canonical(),
    {
        match rhs.reciprocal() {
            Err(e) => Err(e),
            Ok(inverse) => {
                let r = self * inverse;
                proof {
                    use_type_invariant(self);
                    use_type_invariant(rhs);
                    let flipped = rhs@.reciprocal();
                    lemma_reciprocal(rhs@);
                    lemma_reduce(flipped);
                    lemma_product_respects_value(self@, self@, inverse@, flipped);
                    lemma_product_wf(self@, inverse@);
                    lemma_product_wf(self@, flipped);
                    lemma_reduce_decides_value(self@.product(inverse@), self@.quotient(rhs@));
                    r.lemma_view();
                }
                Ok(r)
            },
        }
    }
}

impl AddAssign<Fraction> for Fraction {
    /// Replaces the fraction by its sum with `rhs`.
    fn add_assign(&mut self, rhs: Fraction)
        requires
            sum_fits(old(self)@, rhs@),
        ensures
            final(self)@ == old(self)@.sum(rhs@).reduce(),
            final(self)@.canonical(),
    {
        *self = *self + rhs;
    }
}

impl AddAssign<i128> for Fraction {
    /// Replaces the fraction by its sum with the integer `rhs`.
    fn add_assign(&mut self, rhs: i128)
        requires
            sum_fits(old(self)@, Ratio::whole(rhs as int)),
        ensures
            final(self)@ == old(self)@.sum(Ratio::whole(rhs as int)).reduce(),
            final(self)@.canonical(),
    {
        *self = *self + rhs;
    }
}

impl SubAssign<Fraction> for Fraction {
    /// Replaces the fraction by its difference with `rhs`.
    fn sub_assign(&mut self, rhs: Fraction)
        requires
            difference_fits(old(self)@, rhs@),
        ensures
            final(self)@ == old(self)@.difference(rhs@).reduce(),
            final(self)@.canonical(),
    {
        *self = *self - rhs;
    }
}

impl SubAssign<i128> for Fraction {
    /// Replaces the fraction by its difference with the integer `rhs`.
    fn sub_assign(&mut self, rhs: i128)
        requires
            difference_fits(old(self)@, Ratio::whole(rhs as int)),
        ensures
            final(self)@ == old(self)@.difference(Ratio::whole(rhs as int)).reduce(),
            final(self)@.canonical(),
    {
        *self = *self - rhs;
    }
}

} // verus!

//! Equality and order of value.
//!
//! Two fractions are equal when they reduce to the same lowest terms, and
//! they are ordered as their cross products are.
use crate::euclid;
use crate::fraction::{half_width, Fraction};
use crate::ratio::{lemma_common_denominator, Ratio};
use crate::signed::{fits_i128, fits_u128, magnitude, scale};
use core::cmp::Ordering;
use vstd::arithmetic::div_mod::lemma_fundamental_div_mod;
use vstd::prelude::*;
use vstd::std_specs::cmp::{PartialEqSpecImpl, PartialOrdSpecImpl};

verus! {

/// How the integer `x` stands to the integer `y`.
pub open spec fn order_of(x: int, y: int) -> Ordering {
    if x < y {
        Ordering::Less
    } else if x == y {
        Ordering::Equal
    } else {
        Ordering::Greater
    }
}

impl Ratio {
    /// How the value of `self` stands to the value of `other`.
    pub open spec fn order(self, other: Ratio) -> Ordering {
        order_of(self.num * other.den, other.num * self.den)
    }
}

/// Both numerators can be scaled to the least common denominator without
/// overflow.
pub open spec fn common_scale_fits(a: Ratio, b: Ratio) -> bool {
    &&& fits_u128(a.common_denominator(b))
    &&& fits_i128(a.num * (a.common_denominator(b) / a.den))
    &&& fits_i128(b.num * (a.common_denominator(b) / b.den))
}

/// Two fractions with parts of half width can be scaled to their least
/// common denominator.
pub proof fn lemma_half_width_scales(a: Ratio, b: Ratio)
    requires
        a.wf(),
        b.wf(),
        half_width(a),
        half_width(b),
    ensures
        common_scale_fits(a, b),
{
    lemma_common_denominator(a, b);
    let m = a.common_denominator(b);
    let p = m / a.den;
    let q = m / b.den;
    assert(m < 0x4000_0000_0000_0000_0000_0000_0000_0000
        && -0x4000_0000_0000_0000_0000_0000_0000_0000 < a.num * p
        < 0x4000_0000_0000_0000_0000_0000_0000_0000
        && -0x4000_0000_0000_0000_0000_0000_0000_0000 < b.num * q
        < 0x4000_0000_0000_0000_0000_0000_0000_0000) by (nonlinear_arith)
        requires
            0 < m <= a.den * b.den,
            0 < p <= b.den,
            0 < q <= a.den,
            0 < a.den < 0x8000_0000_0000_0000,
            0 < b.den < 0x8000_0000_0000_0000,
            -0x8000_0000_0000_0000 < a.num < 0x8000_0000_0000_0000,
            -0x8000_0000_0000_0000 < b.num < 0x8000_0000_0000_0000,
    ;
}

/// A negative value is below every value that is not negative.
pub proof fn lemma_order_of_signs(a: Ratio, b: Ratio)
    requires
        a.wf(),
        b.wf(),
        a.num < 0 <= b.num,
    ensures
        a.below(b),
{
    assert(a.num * b.den < 0 <= b.num * a.den) by (nonlinear_arith)
        requires
            a.den > 0,
            b.den > 0,
            a.num < 0 <= b.num,
    ;
}

/// Two negative values stand to each other as their magnitudes do in the
/// opposite direction.
pub proof fn lemma_order_of_negatives(a: Ratio, b: Ratio)
    requires
        a.num < 0,
        b.num < 0,
    ensures
        a.below(b) <==> (-b.num) * a.den < (-a.num) * b.den,
        a.same_value(b) <==> (-b.num) * a.den == (-a.num) * b.den,
{
    assert((-b.num) * a.den == -(b.num * a.den) && (-a.num) * b.den == -(a.num * b.den))
        by (nonlinear_arith);
}

/// One step of comparing `a/b` with `c/d` by whole parts: unequal whole
/// parts decide, and equal ones leave the remainders to be compared.
pub proof fn lemma_whole_parts(a: u128, b: u128, c: u128, d: u128)
    requires
        b > 0,
        d > 0,
    ensures
        a / b < c / d ==> a * d < c * b,
        a / b > c / d ==> a * d > c * b,
        a / b == c / d ==> a * d - c * b == d * (a % b) - b * (c % d),
{
    let qa = a / b;
    let ra = a % b;
    let qc = c / d;
    let rc = c % d;
    lemma_fundamental_div_mod(a as int, b as int);
    lemma_fundamental_div_mod(c as int, d as int);
    assert((qa < qc ==> a * d < c * b) && (qa > qc ==> a * d > c * b) && (qa == qc ==> a * d - c
        * b == d * ra - b * rc)) by (nonlinear_arith)
        requires
            a == b * qa + ra,
            c == d * qc + rc,
            0 <= ra < b,
            0 <= rc < d,
    {
        assert(a * d == (b * d) * qa + ra * d);
        assert(c * b == (b * d) * qc + rc * b);
        assert(ra * d < b * d);
        assert(rc * b < b * d);
        assert(qa < qc ==> (b * d) * (qa + 1) <= (b * d) * qc);
        assert(qa > qc ==> (b * d) * (qc + 1) <= (b * d) * qa);
    }
}

/// Where one of two remainders is zero, the remainders themselves compare
/// as the fractional parts `left/b` and `right/d` do.
pub proof fn lemma_vanishing_rest(b: u128, left: u128, d: u128, right: u128)
    requires
        b > 0,
        d > 0,
        left == 0 || right == 0,
    ensures
        d * left < b * right <==> left < right,
        d * left == b * right <==> left == right,
{
    assert((d * left < b * right <==> left < right) && (d * left == b * right <==> left == right))
        by (nonlinear_arith)
        requires
            b > 0,
            d > 0,
            left == 0 || right == 0,
            left >= 0,
            right >= 0,
    ;
}

/// Orders `a/b` against `c/d` without forming a cross product: the whole
/// parts are compared first, then the reciprocals of the fractional parts.
pub fn order_by_whole_parts(a: u128, b: u128, c: u128, d: u128) -> (r: Ordering)
    requires
        b > 0,
        d > 0,
    ensures
        r == order_of(a * d, c * b),
{
    let mut x: u128 = a;
    let mut y: u128 = b;
    let mut z: u128 = c;
    let mut w: u128 = d;
    loop
        invariant
            y > 0,
            w > 0,
            order_of(x * w, z * y) == order_of(a * d, c * b),
        decreases y + w,
    {
        let left_rest: u128 = x % y;
        let right_rest: u128 = z % w;
        proof {
            lemma_whole_parts(x, y, z, w);
        }
        if x / y < z / w {
            return Ordering::Less;
        }
        if x / y > z / w {
            return Ordering::Greater;
        }
        if left_rest == 0 || right_rest == 0 {
            proof {
                lemma_vanishing_rest(y, left_rest, w, right_rest);
            }
            return if left_rest < right_rest {
                Ordering::Less
            } else if left_rest == right_rest {
                Ordering::Equal
            } else {
                Ordering::Greater
            };
        }
        x = w;
        z = y;
        y = right_rest;
        w = left_rest;
    }
}

impl Fraction {
    /// Orders two fractions by bringing both to their least common
    /// denominator and comparing the scaled numerators.
    pub fn cmp_scaled(&self, other: &Fraction) -> (r: Ordering)
        requires
            common_scale_fits(self@, other@),
        ensures
            r == self@.order(other@),
    {
        proof {
            use_type_invariant(self);
            use_type_invariant(other);
            lemma_common_denominator(self@, other@);
        }
        let common: u128 = euclid::lcm(self.den, other.den);
        let mine: i128 = scale(self.num, common / self.den);
        let theirs: i128 = scale(other.num, common / other.den);
        if mine < theirs {
            Ordering::Less
        } else if mine == theirs {
            Ordering::Equal
        } else {
            Ordering::Greater
        }
    }

    /// Orders two fractions by value, exactly, whatever their size: over
    /// the least common denominator where the parts are small enough for
    /// that, and by whole parts otherwise.
    pub fn cmp(&self, other: &Fraction) -> (r: Ordering)
        ensures
            r == self@.order(other@),
    {
        proof {
            use_type_invariant(self);
            use_type_invariant(other);
        }
        if self.is_half_width() && other.is_half_width() {
            proof {
                lemma_half_width_scales(self@, other@);
            }
            self.cmp_scaled(other)
        } else if self.num < 0 && other.num < 0 {
            proof {
                lemma_order_of_negatives(self@, other@);
            }
            order_by_whole_parts(magnitude(other.num), other.den, magnitude(self.num), self.den)
        } else if self.num < 0 {
            proof {
                lemma_order_of_signs(self@, other@);
            }
            Ordering::Less
        } else if other.num < 0 {
            proof {
                lemma_order_of_signs(other@, self@);
            }
            Ordering::Greater
        } else {
            order_by_whole_parts(magnitude(self.num), self.den, magnitude(other.num), other.den)
        }
    }
}

impl PartialOrdSpecImpl for Fraction {
    open spec fn obeys_partial_cmp_spec() -> bool {
        true
    }

    open spec fn partial_cmp_spec(&self, other: &Fraction) -> Option<Ordering> {
        Some(self@.order(other@))
    }
}

impl PartialOrd for Fraction {
    /// Any two fractions are ordered, by value.
    fn partial_cmp(&self, other: &Fraction) -> (r: Option<Ordering>) {
        Some(self.cmp(other))
    }
}

impl PartialEqSpecImpl for Fraction {
    open spec fn obeys_eq_spec() -> bool {
        true
    }

    open spec fn eq_spec(&self, other: &Fraction) -> bool {
        self@.reduce() == other@.reduce()
    }
}

impl PartialEq for Fraction {
    /// Two fractions are equal when their lowest terms are identical.
    fn eq(&self, other: &Fraction) -> (r: bool) {
        let mine = self.simplify();
        let theirs = other.simplify();
        mine.num == theirs.num && mine.den == theirs.den
    }
}

impl Eq for Fraction {}

} // verus!

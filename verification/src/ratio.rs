//! The mathematical model of a fraction: a pair of unbounded integers.
//!
//! Two ratios have the same value when their cross products agree. Among the
//! ratios of one value exactly one is canonical, and [`Ratio::reduce`] finds it.
use crate::divisors::{
    divides, gcd, lcm, lemma_coprime_divides_factor, lemma_divisor_bound, lemma_gcd_divides,
    lemma_gcd_of_quotients, lemma_gcd_positive,
};
use vstd::arithmetic::div_mod::{
    lemma_div_multiples_vanish, lemma_fundamental_div_mod, lemma_fundamental_div_mod_converse,
    lemma_mod_multiples_basic,
};
use vstd::math::abs;
use vstd::prelude::*;

verus! {

/// A numerator over a denominator, both unbounded.
pub struct Ratio {
    pub num: int,
    pub den: int,
}

impl Ratio {
    /// The denominator is strictly positive, so the numerator carries the sign.
    pub open spec fn wf(self) -> bool {
        self.den > 0
    }

    /// The greatest common divisor of the numerator's magnitude and the
    /// denominator.
    pub open spec fn common_divisor(self) -> nat {
        gcd(abs(self.num), abs(self.den))
    }

    /// Lowest terms over a positive denominator. The only canonical ratio of
    /// value zero is `0/1`.
    pub open spec fn canonical(self) -> bool {
        self.den > 0 && self.common_divisor() == 1
    }

    /// Both parts divided by their greatest common divisor.
    pub open spec fn reduce(self) -> Ratio {
        Ratio {
            num: self.num / (self.common_divisor() as int),
            den: self.den / (self.common_divisor() as int),
        }
    }

    /// Equality of value, by cross multiplication.
    pub open spec fn same_value(self, other: Ratio) -> bool {
        self.num * other.den == other.num * self.den
    }

    /// Strict order of value, by cross multiplication.
    pub open spec fn below(self, other: Ratio) -> bool {
        self.num * other.den < other.num * self.den
    }

    /// The integer `n` as a ratio.
    pub open spec fn whole(n: int) -> Ratio {
        Ratio { num: n, den: 1 }
    }

    /// The sum by cross multiplication, unreduced.
    pub open spec fn sum(self, other: Ratio) -> Ratio {
        Ratio {
            num: self.num * other.den + other.num * self.den,
            den: self.den * other.den,
        }
    }

    /// The difference by cross multiplication, unreduced.
    pub open spec fn difference(self, other: Ratio) -> Ratio {
        Ratio {
            num: self.num * other.den - other.num * self.den,
            den: self.den * other.den,
        }
    }

    /// Numerator times numerator over denominator times denominator.
    pub open spec fn product(self, other: Ratio) -> Ratio {
        Ratio { num: self.num * other.num, den: self.den * other.den }
    }

    /// The same denominator under the opposite numerator.
    pub open spec fn negation(self) -> Ratio {
        Ratio { num: -self.num, den: self.den }
    }

    /// Numerator and denominator exchanged, with the sign kept on the
    /// numerator. Meaningful for a nonzero numerator only.
    pub open spec fn reciprocal(self) -> Ratio {
        if self.num < 0 {
            Ratio { num: -self.den, den: -self.num }
        } else {
            Ratio { num: self.den, den: self.num }
        }
    }

    /// The product with the reciprocal of `other`, unreduced.
    pub open spec fn quotient(self, other: Ratio) -> Ratio {
        self.product(other.reciprocal())
    }

    /// The greatest integer that is not above the ratio's value.
    pub open spec fn floor(self) -> int {
        self.num / self.den
    }

    /// The least common multiple of the two denominators.
    pub open spec fn common_denominator(self, other: Ratio) -> int {
        lcm(abs(self.den), abs(other.den)) as int
    }
}

/// Dividing `n` by a divisor of its magnitude is exact, and commutes with
/// taking magnitudes.
pub proof fn lemma_exact_quotient(n: int, g: nat)
    requires
        divides(g, abs(n)),
    ensures
        n == (g as int) * (n / (g as int)),
        abs(n / (g as int)) == abs(n) / g,
{
    let k: int = (abs(n) / g) as int;
    lemma_fundamental_div_mod(abs(n) as int, g as int);
    if n >= 0 {
        assert(n == k * g + 0) by (nonlinear_arith)
            requires
                n == g * k,
        ;
        lemma_fundamental_div_mod_converse(n, g as int, k, 0);
    } else {
        assert(n == (-k) * g + 0) by (nonlinear_arith)
            requires
                -n == g * k,
        ;
        lemma_fundamental_div_mod_converse(n, g as int, -k, 0);
        assert(k >= 0);
    }
}

/// Reducing keeps the value and the sign, never grows either part, and
/// yields a canonical ratio.
pub proof fn lemma_reduce(r: Ratio)
    requires
        r.wf(),
    ensures
        r.reduce().canonical(),
        r.reduce().same_value(r),
        r.common_divisor() > 0,
        r.num == r.common_divisor() * r.reduce().num,
        r.den == r.common_divisor() * r.reduce().den,
        abs(r.reduce().num) == abs(r.num) / r.common_divisor(),
        abs(r.reduce().num) <= abs(r.num),
        r.reduce().den <= r.den,
        r.num >= 0 <==> r.reduce().num >= 0,
{
    let g = r.common_divisor();
    let n = r.reduce().num;
    let d = r.reduce().den;
    lemma_gcd_positive(abs(r.num), abs(r.den));
    lemma_gcd_divides(abs(r.num), abs(r.den));
    lemma_exact_quotient(r.num, g);
    lemma_exact_quotient(r.den, g);
    lemma_gcd_of_quotients(abs(r.num), abs(r.den));
    assert(d > 0 && n * r.den == r.num * d && abs(n) <= abs(r.num) && d <= r.den && (r.num >= 0
        <==> n >= 0)) by (nonlinear_arith)
        requires
            g > 0,
            r.den > 0,
            r.num == g * n,
            r.den == g * d,
    ;
}

/// A canonical ratio is its own reduction.
pub proof fn lemma_canonical_is_reduced(r: Ratio)
    requires
        r.canonical(),
    ensures
        r.reduce() == r,
{
}

/// The canonical ratio of value zero is `0/1`.
pub proof fn lemma_canonical_zero(r: Ratio)
    requires
        r.canonical(),
        r.num == 0,
    ensures
        r.den == 1,
{
    reveal_with_fuel(gcd, 2);
}

/// Having the same value is transitive across a ratio with a nonzero
/// denominator.
pub proof fn lemma_same_value_transitive(a: Ratio, b: Ratio, c: Ratio)
    requires
        b.den != 0,
        a.same_value(b),
        b.same_value(c),
    ensures
        a.same_value(c),
{
    assert(a.num * c.den == c.num * a.den) by (nonlinear_arith)
        requires
            b.den != 0,
            a.num * b.den == b.num * a.den,
            b.num * c.den == c.num * b.den,
    {
        assert((a.num * c.den - c.num * a.den) * b.den == 0);
    }
}

/// Two canonical ratios of the same value are the same ratio.
pub proof fn lemma_canonical_unique(x: Ratio, y: Ratio)
    requires
        x.canonical(),
        y.canonical(),
        x.same_value(y),
    ensures
        x == y,
{
    let a = abs(x.num);
    let c = abs(y.num);
    let dx = x.den as nat;
    let dy = y.den as nat;
    assert(a * dy == c * dx) by (nonlinear_arith)
        requires
            x.num * y.den == y.num * x.den,
            x.den > 0,
            y.den > 0,
            a == abs(x.num),
            c == abs(y.num),
            dx == x.den,
            dy == y.den,
    ;
    lemma_mod_multiples_basic(c as int, dx as int);
    lemma_coprime_divides_factor(dx, a, dy);
    lemma_mod_multiples_basic(a as int, dy as int);
    lemma_coprime_divides_factor(dy, c, dx);
    lemma_divisor_bound(dx, dy);
    lemma_divisor_bound(dy, dx);
    assert(x.num == y.num) by (nonlinear_arith)
        requires
            x.num * y.den == y.num * x.den,
            x.den == y.den,
            x.den > 0,
    ;
}

/// Two well-formed ratios reduce to the same ratio exactly when they have
/// the same value.
pub proof fn lemma_reduce_decides_value(x: Ratio, y: Ratio)
    requires
        x.wf(),
        y.wf(),
    ensures
        x.reduce() == y.reduce() <==> x.same_value(y),
{
    lemma_reduce(x);
    lemma_reduce(y);
    let rx = x.reduce();
    let ry = y.reduce();
    if x.same_value(y) {
        lemma_same_value_transitive(rx, x, y);
        lemma_same_value_symmetric(ry, y);
        lemma_same_value_transitive(rx, y, ry);
        lemma_canonical_unique(rx, ry);
    }
    if rx == ry {
        lemma_same_value_symmetric(rx, x);
        lemma_same_value_transitive(x, rx, y);
    }
}

/// Having the same value is symmetric.
pub proof fn lemma_same_value_symmetric(a: Ratio, b: Ratio)
    requires
        a.same_value(b),
    ensures
        b.same_value(a),
{
}

/// The value of a product depends only on the values of its factors.
pub proof fn lemma_product_respects_value(a: Ratio, b: Ratio, x: Ratio, y: Ratio)
    requires
        a.same_value(b),
        x.same_value(y),
    ensures
        a.product(x).same_value(b.product(y)),
{
    assert((a.num * x.num) * (b.den * y.den) == (b.num * y.num) * (a.den * x.den))
        by (nonlinear_arith)
        requires
            a.num * b.den == b.num * a.den,
            x.num * y.den == y.num * x.den,
    {
        assert((a.num * x.num) * (b.den * y.den) == (a.num * b.den) * (x.num * y.den));
        assert((b.num * y.num) * (a.den * x.den) == (b.num * a.den) * (y.num * x.den));
    }
}

/// The product of two well-formed ratios is well formed.
pub proof fn lemma_product_wf(a: Ratio, b: Ratio)
    requires
        a.wf(),
        b.wf(),
    ensures
        a.product(b).wf(),
        a.sum(b).wf(),
        a.difference(b).wf(),
{
    assert(a.den * b.den > 0) by (nonlinear_arith)
        requires
            a.den > 0,
            b.den > 0,
    ;
}

/// The reciprocal of a well-formed ratio with a nonzero numerator is well
/// formed, and its product with the ratio has the value one.
pub proof fn lemma_reciprocal(a: Ratio)
    requires
        a.wf(),
        a.num != 0,
    ensures
        a.reciprocal().wf(),
        a.product(a.reciprocal()).same_value(Ratio::whole(1)),
{
    assert(a.num * a.den == a.den * a.num && a.num * (-a.den) == a.den * (-a.num))
        by (nonlinear_arith);
}

/// Bringing two ratios to their least common denominator scales each
/// numerator by a positive factor, and the scaled numerators compare as the
/// ratios' values do.
pub proof fn lemma_common_denominator(a: Ratio, b: Ratio)
    requires
        a.wf(),
        b.wf(),
    ensures
        0 < a.common_denominator(b) <= a.den * b.den,
        0 < a.common_denominator(b) / a.den <= b.den,
        0 < a.common_denominator(b) / b.den <= a.den,
        a.num * (a.common_denominator(b) / a.den) < b.num * (a.common_denominator(b) / b.den)
            <==> a.below(b),
        a.num * (a.common_denominator(b) / a.den) == b.num * (a.common_denominator(b) / b.den)
            <==> a.same_value(b),
{
    let g = gcd(abs(a.den), abs(b.den)) as int;
    let m = a.common_denominator(b);
    let s = a.den / g;
    let t = b.den / g;
    lemma_gcd_positive(abs(a.den), abs(b.den));
    lemma_gcd_divides(abs(a.den), abs(b.den));
    lemma_fundamental_div_mod(a.den, g);
    lemma_fundamental_div_mod(b.den, g);
    assert(m == a.den * t);
    assert(m == b.den * s && 0 < s <= a.den && 0 < t <= b.den && m <= a.den * b.den && m > 0)
        by (nonlinear_arith)
        requires
            m == a.den * t,
            a.den == g * s,
            b.den == g * t,
            g > 0,
            a.den > 0,
            b.den > 0,
    ;
    lemma_div_multiples_vanish(t, a.den);
    lemma_div_multiples_vanish(s, b.den);
    assert(m / a.den == t);
    assert(m / b.den == s);
    assert((a.num * t < b.num * s <==> a.num * b.den < b.num * a.den) && (a.num * t == b.num * s
        <==> a.num * b.den == b.num * a.den)) by (nonlinear_arith)
        requires
            a.den == g * s,
            b.den == g * t,
            g > 0,
    {
        assert(a.num * b.den == g * (a.num * t));
        assert(b.num * a.den == g * (b.num * s));
    }
}

/// Every ratio of value zero reduces to `0/1`.
pub proof fn lemma_reduce_zero(a: Ratio)
    requires
        a.wf(),
        a.num == 0,
    ensures
        a.reduce() == Ratio::whole(0),
{
    lemma_whole_is_canonical(0);
    lemma_reduce_decides_value(a, Ratio::whole(0));
}

/// An integer over one is in lowest terms.
pub proof fn lemma_whole_is_canonical(n: int)
    ensures
        Ratio::whole(n).canonical(),
        Ratio::whole(n).reduce() == Ratio::whole(n),
{
    reveal_with_fuel(gcd, 3);
    lemma_canonical_is_reduced(Ratio::whole(n));
}

/// Zero is neutral for the sum and one for the product, before any
/// reduction.
pub proof fn lemma_neutral_elements(a: Ratio)
    ensures
        a.sum(Ratio::whole(0)) == a,
        a.product(Ratio::whole(1)) == a,
{
    assert(a.num * 1 + 0 * a.den == a.num && a.den * 1 == a.den && a.num * 1 == a.num)
        by (nonlinear_arith);
}

/// Sum and product do not depend on the order of their operands.
pub proof fn lemma_commutative(a: Ratio, b: Ratio)
    ensures
        a.sum(b) == b.sum(a),
        a.product(b) == b.product(a),
{
    assert(a.num * b.den + b.num * a.den == b.num * a.den + a.num * b.den && a.den * b.den
        == b.den * a.den && a.num * b.num == b.num * a.num) by (nonlinear_arith);
}

/// The sum of a ratio with any ratio of the opposite value reduces to zero.
pub proof fn lemma_sum_of_opposites(a: Ratio, b: Ratio)
    requires
        a.wf(),
        b.wf(),
        b.same_value(a.negation()),
    ensures
        a.sum(b).reduce() == Ratio::whole(0),
{
    lemma_product_wf(a, b);
    assert(a.num * b.den + b.num * a.den == 0) by (nonlinear_arith)
        requires
            b.num * a.den == (-a.num) * b.den,
    ;
    lemma_reduce_zero(a.sum(b));
}

/// Dividing a product by one of its factors gives back the value of the
/// other factor, whichever ratios stand for the product and the factor.
pub proof fn lemma_quotient_of_product(a: Ratio, b: Ratio, m: Ratio)
    requires
        a.wf(),
        b.wf(),
        m.wf(),
        b.num != 0,
        m.same_value(a.product(b)),
    ensures
        m.quotient(b).wf(),
        m.quotient(b).same_value(a),
        m.quotient(b).reduce() == a.reduce(),
{
    let r = b.reciprocal();
    lemma_reciprocal(b);
    lemma_product_wf(m, r);
    assert((m.num * r.num) * a.den == a.num * (m.den * r.den)) by (nonlinear_arith)
        requires
            m.num * (a.den * b.den) == (a.num * b.num) * m.den,
            (r.num == b.den && r.den == b.num) || (r.num == -b.den && r.den == -b.num),
            b.num != 0,
    {
        assert((m.num * b.den) * a.den == m.num * (a.den * b.den));
        assert(a.num * (m.den * b.num) == (a.num * b.num) * m.den);
    }
    lemma_reduce_decides_value(m.quotient(b), a);
}

/// The value of a quotient depends only on the values of the dividend and
/// of the nonzero divisor.
pub proof fn lemma_quotient_respects_value(a: Ratio, b: Ratio, x: Ratio, y: Ratio)
    requires
        x.wf(),
        y.wf(),
        x.num != 0,
        a.same_value(b),
        x.same_value(y),
    ensures
        y.num != 0,
        a.quotient(x).same_value(b.quotient(y)),
{
    assert(y.num != 0 && (x.num < 0 <==> y.num < 0)) by (nonlinear_arith)
        requires
            x.num * y.den == y.num * x.den,
            x.den > 0,
            y.den > 0,
            x.num != 0,
    ;
    assert(x.reciprocal().same_value(y.reciprocal())) by (nonlinear_arith)
        requires
            x.num * y.den == y.num * x.den,
            x.num < 0 <==> y.num < 0,
    ;
    lemma_product_respects_value(a, b, x.reciprocal(), y.reciprocal());
}

} // verus!

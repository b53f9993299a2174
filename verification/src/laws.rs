//! Laws of the fraction operations and of the search built on them.
//!
//! Each law is stated of the operations' own specifications, for all
//! fractions with positive denominators.
use crate::fraction::arith::{lemma_half_width_combines, product_fits, sum_fits};
use crate::fraction::order::{common_scale_fits, lemma_half_width_scales};
use crate::fraction::{half_width, DivisionByZeroError, Fraction};
use crate::ratio::{
    lemma_canonical_is_reduced, lemma_commutative, lemma_neutral_elements, lemma_product_wf,
    lemma_quotient_of_product, lemma_reciprocal, lemma_reduce, lemma_reduce_decides_value,
    lemma_sum_of_opposites, lemma_whole_is_canonical, Ratio,
};
use crate::search::{chance_fits, Search};
use core::cmp::Ordering;
use vstd::prelude::*;
use vstd::std_specs::cmp::{PartialEqSpec, PartialOrdSpec};
use vstd::std_specs::ops::{AddSpec, DivSpec, MulSpec, NegSpec, SubSpec};

verus! {

/// Adding zero can always be done and only reduces: a fraction in lowest
/// terms is left as it is.
pub proof fn law_add_zero(a: Fraction, zero: Fraction)
    requires
        a@.wf(),
        zero@ == Ratio::whole(0),
    ensures
        a.add_req(zero),
        a.add_spec(zero)@ == a@.reduce(),
        a@.canonical() ==> a.add_spec(zero) == a,
{
    a.lemma_view();
    lemma_neutral_elements(a@);
    Fraction::lemma_reduce_representable(a@);
    assert(sum_fits(a@, zero@)) by (nonlinear_arith)
        requires
            zero@.num == 0,
            zero@.den == 1,
            i128::MIN <= a@.num <= i128::MAX,
            0 < a@.den <= u128::MAX,
    ;
    if a@.canonical() {
        lemma_canonical_is_reduced(a@);
    }
}

/// The sum of a fraction and its negation is zero. For a fraction in lowest
/// terms that sum can always be formed.
pub proof fn law_add_negation(a: Fraction)
    requires
        a@.wf(),
        a.neg_req(),
    ensures
        a.add_spec(a.neg_spec())@ == Ratio::whole(0),
        a@.canonical() ==> a.add_req(a.neg_spec()),
{
    a.lemma_view();
    let opposite = a.neg_spec();
    Fraction::lemma_reduce_representable(a@.negation());
    lemma_reduce(a@.negation());
    lemma_sum_of_opposites(a@, opposite@);
    Fraction::lemma_of(Ratio::whole(0));
    if a@.canonical() {
        lemma_canonical_is_reduced(a@.negation());
    }
}

/// Multiplying by one can always be done and only reduces: a fraction in
/// lowest terms is left as it is.
pub proof fn law_mul_one(a: Fraction, one: Fraction)
    requires
        a@.wf(),
        one@ == Ratio::whole(1),
    ensures
        a.mul_req(one),
        a.mul_spec(one)@ == a@.reduce(),
        a@.canonical() ==> a.mul_spec(one) == a,
{
    a.lemma_view();
    lemma_neutral_elements(a@);
    Fraction::lemma_reduce_representable(a@);
    assert(product_fits(a@, one@)) by (nonlinear_arith)
        requires
            one@.num == 1,
            one@.den == 1,
            i128::MIN <= a@.num <= i128::MAX,
            0 < a@.den <= u128::MAX,
    ;
    if a@.canonical() {
        lemma_canonical_is_reduced(a@);
    }
}

/// A sum does not depend on the order of its operands, and it can be formed
/// in one order exactly when it can be formed in the other.
pub proof fn law_add_commutes(a: Fraction, b: Fraction)
    ensures
        a.add_req(b) == b.add_req(a),
        a.add_spec(b) == b.add_spec(a),
{
    lemma_commutative(a@, b@);
    assert(sum_fits(a@, b@) == sum_fits(b@, a@)) by (nonlinear_arith)
        requires
            a@.sum(b@) == b@.sum(a@),
    ;
}

/// A product does not depend on the order of its factors, and it can be
/// formed in one order exactly when it can be formed in the other.
pub proof fn law_mul_commutes(a: Fraction, b: Fraction)
    ensures
        a.mul_req(b) == b.mul_req(a),
        a.mul_spec(b) == b.mul_spec(a),
{
    lemma_commutative(a@, b@);
}

/// Dividing a product by one of its factors, where that factor is not zero,
/// gives back the other factor in lowest terms.
pub proof fn law_div_undoes_mul(a: Fraction, b: Fraction)
    requires
        a@.wf(),
        b@.wf(),
        b@.num != 0,
        a.mul_req(b),
    ensures
        a.mul_spec(b).div_spec(b) matches Ok(q) && q@ == a@.reduce(),
        a@.canonical() ==> a.mul_spec(b).div_spec(b) == Ok::<Fraction, DivisionByZeroError>(a),
{
    a.lemma_view();
    b.lemma_view();
    lemma_product_wf(a@, b@);
    Fraction::lemma_reduce_representable(a@.product(b@));
    lemma_reduce(a@.product(b@));
    let m = a.mul_spec(b);
    lemma_quotient_of_product(a@, b@, m@);
    Fraction::lemma_reduce_representable(a@);
    if a@.canonical() {
        lemma_canonical_is_reduced(a@);
    }
}

/// Of two fractions, exactly one is the case: the first is below the
/// second, they are equal, or the first is above the second. Equality is
/// equality of value, and the two directions of the order mirror each other.
pub proof fn law_trichotomy(a: Fraction, b: Fraction)
    requires
        a@.wf(),
        b@.wf(),
    ensures
        a.partial_cmp_spec(&b) == Some(Ordering::Less) || a.eq_spec(&b) || a.partial_cmp_spec(&b)
            == Some(Ordering::Greater),
        !(a.partial_cmp_spec(&b) == Some(Ordering::Less) && a.eq_spec(&b)),
        !(a.partial_cmp_spec(&b) == Some(Ordering::Greater) && a.eq_spec(&b)),
        a.partial_cmp_spec(&b) == Some(Ordering::Equal) <==> a.eq_spec(&b),
        a.eq_spec(&b) <==> a@.same_value(b@),
        a.partial_cmp_spec(&b) == Some(Ordering::Less) <==> b.partial_cmp_spec(&a) == Some(
            Ordering::Greater,
        ),
{
    lemma_reduce_decides_value(a@, b@);
}

/// Fractions of half width can always be added, subtracted, multiplied and
/// divided, and compared over their least common denominator.
pub proof fn law_half_width_fits(a: Fraction, b: Fraction)
    requires
        a@.wf(),
        b@.wf(),
        half_width(a@),
        half_width(b@),
    ensures
        a.add_req(b),
        a.sub_req(b),
        a.mul_req(b),
        a.div_req(b),
        common_scale_fits(a@, b@),
{
    lemma_half_width_combines(a@, b@);
    lemma_half_width_scales(a@, b@);
}

/// For whole, nonnegative numbers of discs of half width the chance can
/// always be evaluated.
pub proof fn law_counts_fit(blue: Ratio, total: Ratio)
    requires
        blue.den == 1,
        total.den == 1,
        0 <= blue.num,
        0 <= total.num,
        half_width(blue),
        half_width(total),
    ensures
        chance_fits(blue, total),
{
    let one = Ratio::whole(1);
    let fewer_blue = blue.difference(one);
    let fewer_total = total.difference(one);
    assert(fewer_blue == Ratio::whole(blue.num - 1) && fewer_total == Ratio::whole(total.num - 1))
        by (nonlinear_arith)
        requires
            fewer_blue == blue.difference(Ratio::whole(1)),
            fewer_total == total.difference(Ratio::whole(1)),
            blue.den == 1,
            total.den == 1,
    ;
    lemma_whole_is_canonical(blue.num - 1);
    lemma_whole_is_canonical(total.num - 1);
    lemma_half_width_combines(blue, one);
    lemma_half_width_combines(total, one);
    if total.num != 0 {
        lemma_half_width_combines(blue, total);
        lemma_reciprocal(total);
        lemma_product_wf(blue, total.reciprocal());
        lemma_reduce(blue.quotient(total));
        assert(half_width(blue.quotient(total))) by (nonlinear_arith)
            requires
                blue.quotient(total) == blue.product(total.reciprocal()),
                total.reciprocal() == (Ratio { num: 1, den: total.num }),
                blue.den == 1,
                half_width(blue),
                half_width(total),
        ;
        if fewer_total.num != 0 {
            lemma_half_width_combines(fewer_blue, fewer_total);
            lemma_reciprocal(fewer_total);
            lemma_product_wf(fewer_blue, fewer_total.reciprocal());
            lemma_reduce(fewer_blue.quotient(fewer_total));
            assert(half_width(fewer_blue.quotient(fewer_total))) by (nonlinear_arith)
                requires
                    fewer_blue.quotient(fewer_total) == fewer_blue.product(
                        fewer_total.reciprocal(),
                    ),
                    fewer_total.reciprocal() == (Ratio { num: 1, den: fewer_total.num }),
                    fewer_total.num > 0,
                    fewer_blue.den == 1,
                    half_width(fewer_blue),
                    half_width(fewer_total),
            ;
            lemma_half_width_combines(
                blue.quotient(total).reduce(),
                fewer_blue.quotient(fewer_total).reduce(),
            );
        }
    }
}

/// A search whose numbers of discs and whose swing are of half width
/// can always take its next step.
pub proof fn law_half_width_steps(search: Search, standing: Ordering, swing: Fraction)
    requires
        search.blue@.wf(),
        search.total@.wf(),
        swing@.wf(),
        half_width(search.blue@),
        half_width(search.total@),
        half_width(swing@),
    ensures
        search.step_fits(standing, swing),
{
    lemma_half_width_combines(search.blue@, swing@);
    lemma_half_width_combines(search.blue@, Ratio::whole(1));
    lemma_half_width_combines(search.blue@, Ratio::whole(2));
    lemma_half_width_combines(search.total@, Ratio::whole(1));
}

} // verus!

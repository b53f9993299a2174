//! The stepwise search for a number of blue discs among a total for which
//! two discs drawn without replacement are both blue with a given chance.
//!
//! The search holds a number of blue discs and a total. Each round it
//! evaluates the chance, learns how that stands to the target, and moves
//! one of the two numbers.
use crate::fraction::arith::{difference_fits, product_fits, quotient_fits};
use crate::fraction::{DivisionByZeroError, Fraction};
use crate::ratio::{
    lemma_product_respects_value, lemma_product_wf, lemma_quotient_respects_value, lemma_reduce,
    lemma_reduce_decides_value, lemma_same_value_transitive, Ratio,
};
use core::cmp::Ordering;
use vstd::prelude::*;
use vstd::std_specs::ops::{AddSpec, MulSpec, SubSpec};

verus! {

/// The chance that two discs drawn without replacement from `total`, of
/// which `blue` are blue, are both blue: `blue/total` times
/// `(blue - 1)/(total - 1)`, unreduced.
pub open spec fn two_blue_chance(blue: Ratio, total: Ratio) -> Ratio {
    blue.quotient(total).product(
        blue.difference(Ratio::whole(1)).quotient(total.difference(Ratio::whole(1))),
    )
}

/// Every step of evaluating the chance can be formed without overflow.
pub open spec fn chance_fits(blue: Ratio, total: Ratio) -> bool {
    let fewer_blue = blue.difference(Ratio::whole(1)).reduce();
    let fewer_total = total.difference(Ratio::whole(1)).reduce();
    total.num != 0 ==> {
        &&& quotient_fits(blue, total)
        &&& difference_fits(blue, Ratio::whole(1))
        &&& difference_fits(total, Ratio::whole(1))
        &&& fewer_total.num != 0 ==> {
            &&& quotient_fits(fewer_blue, fewer_total)
            &&& product_fits(
                blue.quotient(total).reduce(),
                fewer_blue.quotient(fewer_total).reduce(),
            )
        }
    }
}

/// The chance of drawing two blue discs, in lowest terms. There is no such
/// chance for a total of zero or of one.
pub fn chance_of_two_blue(blue: Fraction, total: Fraction) -> (r: Result<
    Fraction,
    DivisionByZeroError,
>)
    requires
        chance_fits(blue@, total@),
    ensures
        r is Err <==> total@.num == 0 || total@.num == total@.den,
        r matches Ok(chance) ==> chance@ == two_blue_chance(blue@, total@).reduce()
            && chance@.canonical(),
{
    let ghost one = Ratio::whole(1);
    proof {
        use_type_invariant(total);
        lemma_product_wf(total@, one);
        lemma_reduce(total@.difference(one));
        assert(total@.difference(one).num == 0 <==> total@.num == total@.den) by (nonlinear_arith)
            requires
                total@.difference(one).num == total@.num * 1 - 1 * total@.den,
        ;
        assert(total@.difference(one).reduce().num == 0 <==> total@.difference(one).num == 0)
            by (nonlinear_arith)
            requires
                total@.difference(one).num == total@.difference(one).common_divisor()
                    * total@.difference(one).reduce().num,
                total@.difference(one).common_divisor() > 0,
        ;
    }
    match blue / total {
        Err(e) => Err(e),
        Ok(first) => {
            let fewer_blue = blue - 1i128;
            let fewer_total = total - 1i128;
            match fewer_blue / fewer_total {
                Err(e) => Err(e),
                Ok(second) => {
                    let chance = first * second;
                    proof {
                        use_type_invariant(blue);
                        use_type_invariant(total);
                        lemma_reduce(blue@.difference(one));
                        lemma_quotient_respects_value(
                            fewer_blue@,
                            blue@.difference(one),
                            fewer_total@,
                            total@.difference(one),
                        );
                        lemma_product_wf(blue@, total@.reciprocal());
                        lemma_product_wf(
                            blue@.difference(one),
                            total@.difference(one).reciprocal(),
                        );
                        lemma_product_wf(fewer_blue@, fewer_total@.reciprocal());
                        lemma_reduce(blue@.quotient(total@));
                        lemma_reduce(fewer_blue@.quotient(fewer_total@));
                        lemma_same_value_transitive(
                            second@,
                            fewer_blue@.quotient(fewer_total@),
                            blue@.difference(one).quotient(total@.difference(one)),
                        );
                        lemma_product_respects_value(
                            first@,
                            blue@.quotient(total@),
                            second@,
                            blue@.difference(one).quotient(total@.difference(one)),
                        );
                        lemma_product_wf(first@, second@);
                        lemma_product_wf(
                            blue@.quotient(total@),
                            blue@.difference(one).quotient(total@.difference(one)),
                        );
                        lemma_reduce_decides_value(
                            first@.product(second@),
                            two_blue_chance(blue@, total@),
                        );
                    }
                    Ok(chance)
                },
            }
        },
    }
}

/// Where a search stands: the two numbers of discs, and whether the number
/// of blue discs is being raised or lowered.
#[derive(Clone, Copy, Debug)]
pub struct Search {
    pub blue: Fraction,
    pub total: Fraction,
    pub raising: bool,
}

impl Search {
    /// The search after one round in which the chance stood to the target
    /// as `standing` says. A raising search whose chance is still below the
    /// target adds `swing` blue discs, and a lowering search whose chance is
    /// still above it takes `swing` blue discs away. Once the chance has
    /// crossed the target, the total grows by one disc and the direction
    /// turns: with one blue disc more after raising, with two more after
    /// lowering. A chance on target leaves the search where it is.
    pub open spec fn step(self, standing: Ordering, swing: Fraction) -> Search {
        match standing {
            Ordering::Equal => self,
            Ordering::Less => if self.raising {
                Search { blue: self.blue.add_spec(swing), ..self }
            } else {
                Search {
                    blue: self.blue.add_spec(2i128),
                    total: self.total.add_spec(1i128),
                    raising: true,
                }
            },
            Ordering::Greater => if self.raising {
                Search {
                    blue: self.blue.add_spec(1i128),
                    total: self.total.add_spec(1i128),
                    raising: false,
                }
            } else {
                Search { blue: self.blue.sub_spec(swing), ..self }
            },
        }
    }

    /// The sums and differences of that round can be formed without
    /// overflow.
    pub open spec fn step_fits(self, standing: Ordering, swing: Fraction) -> bool {
        match standing {
            Ordering::Equal => true,
            Ordering::Less => if self.raising {
                self.blue.add_req(swing)
            } else {
                self.blue.add_req(2i128) && self.total.add_req(1i128)
            },
            Ordering::Greater => if self.raising {
                self.blue.add_req(1i128) && self.total.add_req(1i128)
            } else {
                self.blue.sub_req(swing)
            },
        }
    }

    /// A search that starts raising from `total` discs, with as many blue
    /// ones as the whole part of `share` times `total`.
    pub fn start(share: Fraction, total: Fraction) -> (search: Search)
        requires
            share.mul_req(total),
        ensures
            search.blue@ == Ratio::whole(share@.product(total@).reduce().floor()),
            search.total == total,
            search.raising,
    {
        Search { blue: Fraction::from_whole((share * total).frac_floor()), total, raising: true }
    }

    /// Moves the search by one round.
    pub fn advance(self, standing: Ordering, swing: Fraction) -> (next: Search)
        requires
            self.step_fits(standing, swing),
        ensures
            next == self.step(standing, swing),
    {
        match standing {
            Ordering::Equal => self,
            Ordering::Less => if self.raising {
                Search { blue: self.blue + swing, total: self.total, raising: true }
            } else {
                Search { blue: self.blue + 2i128, total: self.total + 1i128, raising: true }
            },
            Ordering::Greater => if self.raising {
                Search { blue: self.blue + 1i128, total: self.total + 1i128, raising: false }
            } else {
                Search { blue: self.blue - swing, total: self.total, raising: false }
            },
        }
    }
}

} // verus!

use exact_fraction::fraction::{DivisionByZeroError, Fraction};

fn frac(num: i128, den: u128) -> Fraction {
    Fraction::new(num, den).unwrap()
}

fn parts(f: Fraction) -> (i128, u128) {
    (f.numerator(), f.denominator())
}

fn samples() -> Vec<Fraction> {
    let mut all = Vec::new();
    for num in -6i128..=6 {
        for den in 1u128..=6 {
            all.push(frac(num, den));
        }
    }
    all.push(frac(1000000000001, 999999999989));
    all.push(frac(-714285714286, 1000000000001));
    all
}

#[test]
fn add_over_a_shared_denominator() {
    assert_eq!(parts(frac(1, 7) + frac(2, 7)), (3, 7));
    assert_eq!(parts(frac(1, 4) + frac(1, 4)), (1, 2));
    assert_eq!(parts(frac(3, 4) + frac(1, 4)), (1, 1));
}

#[test]
fn add_by_cross_multiplication() {
    assert_eq!(parts(frac(1, 2) + frac(1, 3)), (5, 6));
    assert_eq!(parts(frac(1, 6) + frac(1, 3)), (1, 2));
    assert_eq!(parts(frac(-1, 2) + frac(1, 3)), (-1, 6));
    assert_eq!(parts(frac(5, 12) + frac(7, 18)), (29, 36));
}

#[test]
fn add_an_integer() {
    assert_eq!(parts(frac(1, 2) + 1i128), (3, 2));
    assert_eq!(parts(frac(1, 2) + (-1i128)), (-1, 2));
    assert_eq!(parts(frac(7, 1) + 3i128), (10, 1));
}

#[test]
fn add_unreduced_operands() {
    let a = Fraction::new_no_simp(2, 4).unwrap();
    let b = Fraction::new_no_simp(2, 4).unwrap();
    assert_eq!(parts(a + b), (1, 1));
    let c = Fraction::new_no_simp(3, 6).unwrap();
    assert_eq!(parts(a + c), (1, 1));
}

#[test]
fn sub_over_a_shared_denominator() {
    assert_eq!(parts(frac(3, 7) - frac(1, 7)), (2, 7));
    assert_eq!(parts(frac(1, 7) - frac(3, 7)), (-2, 7));
    assert_eq!(parts(frac(3, 4) - frac(1, 4)), (1, 2));
}

#[test]
fn sub_by_cross_multiplication() {
    assert_eq!(parts(frac(1, 2) - frac(1, 3)), (1, 6));
    assert_eq!(parts(frac(1, 3) - frac(1, 2)), (-1, 6));
    assert_eq!(parts(frac(1, 2) - frac(1, 2)), (0, 1));
}

#[test]
fn sub_an_integer() {
    assert_eq!(parts(frac(3, 2) - 1i128), (1, 2));
    assert_eq!(parts(Fraction::from_whole(2) - 1i128), (1, 1));
    assert_eq!(parts(Fraction::from_whole(1) - 1i128), (0, 1));
    assert_eq!(parts(frac(1, 3) - 2i128), (-5, 3));
}

#[test]
fn mul_multiplies_parts_and_reduces() {
    assert_eq!(parts(frac(2, 3) * frac(3, 4)), (1, 2));
    assert_eq!(parts(frac(-2, 3) * frac(3, 4)), (-1, 2));
    assert_eq!(parts(frac(-2, 3) * frac(-3, 4)), (1, 2));
    assert_eq!(parts(frac(5, 7) * frac(0, 3)), (0, 1));
    assert_eq!(parts(frac(5, 7) * frac(7, 5)), (1, 1));
}

#[test]
fn mul_by_an_integer() {
    assert_eq!(parts(frac(5, 7) * 3i128), (15, 7));
    assert_eq!(parts(frac(5, 7) * 7i128), (5, 1));
    assert_eq!(parts(frac(5, 7) * (-14i128)), (-10, 1));
    assert_eq!(parts(frac(5, 7) * 0i128), (0, 1));
}

#[test]
fn mul_by_an_unsigned_integer() {
    assert_eq!(parts(frac(5, 7) * 3u128), (15, 7));
    assert_eq!(parts(frac(-5, 7) * 14u128), (-10, 1));
    assert_eq!(parts(frac(5, 7) * 0u128), (0, 1));
    assert_eq!(parts(frac(-1, 4) * (1u128 << 127)), (-(1i128 << 125), 1));
}

#[test]
fn div_multiplies_by_the_reciprocal() {
    assert_eq!(parts((frac(1, 2) / frac(1, 3)).unwrap()), (3, 2));
    assert_eq!(parts((frac(1, 2) / frac(3, 1)).unwrap()), (1, 6));
    assert_eq!(parts((frac(0, 1) / frac(3, 5)).unwrap()), (0, 1));
    assert_eq!(parts((frac(6, 7) / frac(3, 7)).unwrap()), (2, 1));
}

#[test]
fn div_by_a_negative_fraction_keeps_the_denominator_positive() {
    assert_eq!(parts((frac(1, 2) / frac(-1, 3)).unwrap()), (-3, 2));
    assert_eq!(parts((frac(-1, 2) / frac(-2, 3)).unwrap()), (3, 4));
}

#[test]
fn div_by_zero_fails() {
    assert_eq!(frac(1, 2) / Fraction::from_whole(0), Err(DivisionByZeroError));
    assert_eq!(frac(0, 1) / frac(0, 5), Err(DivisionByZeroError));
    let unreduced_zero = Fraction::new_no_simp(0, 9).unwrap();
    assert_eq!(frac(-3, 2) / unreduced_zero, Err(DivisionByZeroError));
}

#[test]
fn reciprocal_exchanges_the_parts() {
    assert_eq!(parts(frac(2, 3).reciprocal().unwrap()), (3, 2));
    assert_eq!(parts(frac(-2, 3).reciprocal().unwrap()), (-3, 2));
    assert_eq!(parts(Fraction::from_whole(5).reciprocal().unwrap()), (1, 5));
    assert_eq!(parts(Fraction::new_no_simp(4, 6).unwrap().reciprocal().unwrap()), (3, 2));
    assert_eq!(parts(Fraction::from_whole(i128::MIN).reciprocal().unwrap()), (-1, 1u128 << 127));
}

#[test]
fn reciprocal_of_zero_fails() {
    assert_eq!(Fraction::from_whole(0).reciprocal(), Err(DivisionByZeroError));
    assert_eq!(Fraction::new_no_simp(0, 4).unwrap().reciprocal(), Err(DivisionByZeroError));
}

#[test]
fn neg_changes_the_sign_of_the_numerator() {
    assert_eq!(parts(-frac(2, 3)), (-2, 3));
    assert_eq!(parts(-frac(-2, 3)), (2, 3));
    assert_eq!(parts(-frac(0, 3)), (0, 1));
    assert_eq!(parts(-Fraction::new_no_simp(2, 4).unwrap()), (-1, 2));
    assert_eq!(parts(-Fraction::from_whole(i128::MAX)), (-i128::MAX, 1));
}

#[test]
fn add_assign_accumulates() {
    let mut f = frac(1, 2);
    f += frac(1, 3);
    assert_eq!(parts(f), (5, 6));
    f += 1i128;
    assert_eq!(parts(f), (11, 6));
    f += 2i128;
    assert_eq!(parts(f), (23, 6));
}

#[test]
fn sub_assign_accumulates() {
    let mut f = frac(5, 6);
    f -= frac(1, 3);
    assert_eq!(parts(f), (1, 2));
    f -= 1i128;
    assert_eq!(parts(f), (-1, 2));
}

#[test]
fn operations_return_new_values() {
    let a = frac(1, 2);
    let b = frac(1, 3);
    let _ = a + b;
    let _ = a * b;
    let _ = a - b;
    let _ = a / b;
    assert_eq!(parts(a), (1, 2));
    assert_eq!(parts(b), (1, 3));
}

#[test]
fn adding_zero_changes_nothing() {
    let zero = Fraction::from_whole(0);
    for a in samples() {
        assert_eq!(parts(a + zero), parts(a));
        assert_eq!(parts(zero + a), parts(a));
        assert_eq!(parts(a + 0i128), parts(a));
    }
}

#[test]
fn adding_zero_reduces_an_unreduced_fraction() {
    let raw = Fraction::new_no_simp(6, 4).unwrap();
    assert_eq!(parts(raw + Fraction::from_whole(0)), (3, 2));
}

#[test]
fn a_fraction_and_its_negation_sum_to_zero() {
    for a in samples() {
        assert_eq!(parts(a + (-a)), (0, 1));
        assert_eq!(a + (-a), Fraction::from_whole(0));
    }
}

#[test]
fn multiplying_by_one_changes_nothing() {
    let one = Fraction::from_whole(1);
    for a in samples() {
        assert_eq!(parts(a * one), parts(a));
        assert_eq!(parts(one * a), parts(a));
        assert_eq!(parts(a * 1i128), parts(a));
        assert_eq!(parts(a * 1u128), parts(a));
    }
}

#[test]
fn addition_and_multiplication_commute() {
    let all = samples();
    for a in all.iter() {
        for b in all.iter() {
            assert_eq!(parts(*a + *b), parts(*b + *a));
            assert_eq!(parts(*a * *b), parts(*b * *a));
        }
    }
}

#[test]
fn division_undoes_multiplication() {
    let all = samples();
    for a in all.iter() {
        for b in all.iter() {
            if b.numerator() != 0 {
                assert_eq!(parts(((*a * *b) / *b).unwrap()), parts(*a));
            } else {
                assert_eq!((*a * *b) / *b, Err(DivisionByZeroError));
            }
        }
    }
}

#[test]
fn subtraction_undoes_addition() {
    let all = samples();
    for a in all.iter() {
        for b in all.iter() {
            assert_eq!(parts((*a + *b) - *b), parts(*a));
        }
    }
}

#[test]
fn every_result_is_in_lowest_terms_with_a_positive_denominator() {
    let all = samples();
    for a in all.iter() {
        for b in all.iter() {
            for r in [*a + *b, *a - *b, *a * *b, -*a] {
                assert!(r.denominator() > 0);
                assert_eq!(parts(r), parts(r.simplify()));
            }
        }
    }
}

#[test]
fn fifteen_over_twenty_one_simplifies() {
    let f = Fraction::new(15, 21).unwrap();
    assert_eq!(f.numerator(), 5);
    assert_eq!(f.denominator(), 7);
}

#[test]
fn starting_estimate_of_blue_discs() {
    let product = Fraction::new(5, 7).unwrap() * Fraction::from_whole(1000000000001);
    assert_eq!(parts(product), (5000000000005, 7));
    assert_eq!(product.frac_floor(), 714285714286);
}

#[test]
fn chance_with_one_blue_of_two_is_zero() {
    let blue = Fraction::from_whole(1);
    let total = Fraction::from_whole(2);
    let first = (blue / total).unwrap();
    let second = ((blue - 1i128) / (total - 1i128)).unwrap();
    let chance = first * second;
    assert_eq!(chance, Fraction::from_whole(0));
    assert_eq!(parts(chance), (0, 1));
}

#[test]
fn chance_with_fifteen_blue_of_twenty_one_is_one_half() {
    let blue = Fraction::from_whole(15);
    let total = Fraction::from_whole(21);
    let chance = (blue / total).unwrap() * ((blue - 1i128) / (total - 1i128)).unwrap();
    assert_eq!(parts(chance), (1, 2));
}

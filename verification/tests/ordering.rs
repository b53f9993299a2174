use exact_fraction::fraction::HALF_WIDTH;
use exact_fraction::fraction::order::order_by_whole_parts;
use exact_fraction::fraction::Fraction;
use std::cmp::Ordering;

fn frac(num: i128, den: u128) -> Fraction {
    Fraction::new(num, den).unwrap()
}

fn as_float(f: Fraction) -> f64 {
    f.numerator() as f64 / f.denominator() as f64
}

#[test]
fn equal_fractions_from_different_parts() {
    assert_eq!(frac(1, 2), frac(500000000000, 1000000000000));
    assert!(frac(1, 2) == frac(500000000000, 1000000000000));
    assert_eq!(frac(1, 2).cmp(&frac(500000000000, 1000000000000)), Ordering::Equal);
}

#[test]
fn equality_is_of_value() {
    let raw = Fraction::new_no_simp(2, 4).unwrap();
    assert!(raw == frac(1, 2));
    assert!(frac(1, 2) == raw);
    assert!(raw != frac(1, 3));
    assert!(Fraction::new_no_simp(0, 7).unwrap() == Fraction::from_whole(0));
    assert!(frac(-1, 2) != frac(1, 2));
}

#[test]
fn cmp_orders_by_value() {
    assert_eq!(frac(1, 3).cmp(&frac(1, 2)), Ordering::Less);
    assert_eq!(frac(1, 2).cmp(&frac(1, 3)), Ordering::Greater);
    assert_eq!(frac(2, 4).cmp(&frac(1, 2)), Ordering::Equal);
    assert_eq!(frac(-1, 2).cmp(&frac(1, 3)), Ordering::Less);
    assert_eq!(frac(-1, 2).cmp(&frac(-1, 3)), Ordering::Less);
    assert_eq!(frac(-1, 3).cmp(&frac(-1, 2)), Ordering::Greater);
    assert_eq!(frac(0, 1).cmp(&frac(-1, 1000)), Ordering::Greater);
}

#[test]
fn cmp_scaled_uses_the_least_common_denominator() {
    assert_eq!(frac(1, 6).cmp_scaled(&frac(1, 4)), Ordering::Less);
    assert_eq!(frac(1, 4).cmp_scaled(&frac(1, 6)), Ordering::Greater);
    assert_eq!(frac(5, 12).cmp_scaled(&frac(7, 18)), Ordering::Greater);
    assert_eq!(frac(3, 4).cmp_scaled(&frac(3, 4)), Ordering::Equal);
    assert_eq!(frac(-5, 12).cmp_scaled(&frac(-7, 18)), Ordering::Less);
    let raw = Fraction::new_no_simp(4, 6).unwrap();
    assert_eq!(raw.cmp_scaled(&frac(2, 3)), Ordering::Equal);
}

#[test]
fn comparison_operators_follow_the_value() {
    assert!(frac(1, 3) < frac(1, 2));
    assert!(frac(1, 2) > frac(1, 3));
    assert!(frac(1, 2) <= frac(2, 4));
    assert!(frac(1, 2) >= frac(2, 4));
    assert!(!(frac(1, 2) < frac(1, 2)));
    assert_eq!(frac(1, 3).partial_cmp(&frac(1, 2)), Some(Ordering::Less));
    assert_eq!(frac(1, 2).partial_cmp(&frac(1, 2)), Some(Ordering::Equal));
    assert_eq!(frac(2, 3).partial_cmp(&frac(1, 2)), Some(Ordering::Greater));
}

#[test]
fn cmp_is_exact_for_the_widest_parts() {
    let big = u128::MAX;
    assert_eq!(frac(1, big).cmp(&frac(1, big - 1)), Ordering::Less);
    assert_eq!(frac(1, big - 1).cmp(&frac(1, big)), Ordering::Greater);
    assert_eq!(frac(-1, big).cmp(&frac(-1, big - 1)), Ordering::Greater);
    assert_eq!(frac(i128::MAX, big).cmp(&frac(i128::MAX - 1, big - 2)), Ordering::Greater);
    assert_eq!(frac(i128::MAX, big).cmp(&frac(i128::MAX, big)), Ordering::Equal);
    assert_eq!(frac(i128::MIN, 1).cmp(&frac(i128::MAX, 1)), Ordering::Less);
    assert_eq!(frac(i128::MIN, 3).cmp(&frac(i128::MIN, 5)), Ordering::Less);
    assert_eq!(frac(i128::MIN, big).cmp(&frac(-1, 2)), Ordering::Less);
    assert_eq!(frac(i128::MIN, big).cmp(&frac(-2, 3)), Ordering::Greater);
    assert_eq!(frac(i128::MIN + 1, big).cmp(&frac(-1, 2)), Ordering::Greater);
}

#[test]
fn cmp_agrees_above_and_below_half_width() {
    let wide = HALF_WIDTH as i128;
    let a = Fraction::new_no_simp(wide, HALF_WIDTH + 1).unwrap();
    let b = Fraction::new_no_simp(wide - 1, HALF_WIDTH).unwrap();
    assert!(!a.is_half_width());
    assert_eq!(a.cmp(&b), Ordering::Greater);
    assert_eq!(b.cmp(&a), Ordering::Less);
    let c = Fraction::new_no_simp(wide - 1, HALF_WIDTH - 1).unwrap();
    assert!(c.is_half_width());
    assert_eq!(c.cmp(&Fraction::from_whole(1)), Ordering::Equal);
}

#[test]
fn is_half_width_tests_both_parts() {
    assert!(frac(1, 2).is_half_width());
    assert!(frac(-1000000000001, 999999999989).is_half_width());
    assert!(!Fraction::from_whole(HALF_WIDTH as i128).is_half_width());
    assert!(!Fraction::from_whole(-(HALF_WIDTH as i128)).is_half_width());
    assert!(!frac(1, HALF_WIDTH).is_half_width());
    assert!(Fraction::from_whole(HALF_WIDTH as i128 - 1).is_half_width());
}

#[test]
fn order_by_whole_parts_compares_without_products() {
    assert_eq!(order_by_whole_parts(1, 3, 1, 2), Ordering::Less);
    assert_eq!(order_by_whole_parts(1, 2, 1, 3), Ordering::Greater);
    assert_eq!(order_by_whole_parts(2, 4, 1, 2), Ordering::Equal);
    assert_eq!(order_by_whole_parts(7, 2, 10, 3), Ordering::Greater);
    assert_eq!(order_by_whole_parts(0, 5, 0, 9), Ordering::Equal);
    assert_eq!(order_by_whole_parts(0, 5, 1, 9), Ordering::Less);
    assert_eq!(order_by_whole_parts(355, 113, 22, 7), Ordering::Less);
    assert_eq!(
        order_by_whole_parts(u128::MAX, u128::MAX - 1, u128::MAX - 1, u128::MAX - 2),
        Ordering::Less
    );
}

#[test]
fn exactly_one_of_less_equal_greater_holds() {
    let mut all = Vec::new();
    for num in -5i128..=5 {
        for den in 1u128..=5 {
            all.push(Fraction::new_no_simp(num, den).unwrap());
        }
    }
    for a in all.iter() {
        for b in all.iter() {
            let holding = [a < b, a == b, a > b].iter().filter(|h| **h).count();
            assert_eq!(holding, 1);
            assert_eq!(a < b, b > a);
            assert_eq!(a.cmp(b), a.cmp_scaled(b));
            let gap = as_float(*a) - as_float(*b);
            if gap.abs() > 1e-9 {
                assert_eq!(a < b, gap < 0.0);
                assert_eq!(a > b, gap > 0.0);
            } else {
                assert!(a == b);
            }
        }
    }
}

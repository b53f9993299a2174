use exact_fraction::arrangement::{first_arrangement, next_arrangement};

fn is_balanced(blue: u64, total: u64) -> bool {
    let blue = blue as u128;
    let total = total as u128;
    2 * blue * (blue - 1) == total * (total - 1)
}

#[test]
fn next_arrangement_follows_the_recurrence() {
    assert_eq!(next_arrangement(15, 21), (85, 120));
    assert_eq!(next_arrangement(85, 120), (493, 697));
    assert_eq!(next_arrangement(3, 4), (15, 21));
    assert_eq!(next_arrangement(1, 1), (3, 4));
}

#[test]
fn next_arrangement_keeps_the_chance_at_one_half() {
    let mut pair = (15u64, 21u64);
    for _ in 0..20 {
        assert!(is_balanced(pair.0, pair.1));
        pair = next_arrangement(pair.0, pair.1);
    }
    assert!(is_balanced(pair.0, pair.1));
}

#[test]
fn first_arrangement_returns_the_start_for_small_targets() {
    assert_eq!(first_arrangement(0), Some((15, 21)));
    assert_eq!(first_arrangement(21), Some((15, 21)));
}

#[test]
fn first_arrangement_steps_past_the_target() {
    assert_eq!(first_arrangement(22), Some((85, 120)));
    assert_eq!(first_arrangement(120), Some((85, 120)));
    assert_eq!(first_arrangement(121), Some((493, 697)));
    assert_eq!(first_arrangement(1000), Some((2871, 4060)));
}

#[test]
fn first_arrangement_above_a_million_million() {
    let (blue, total) = first_arrangement(1000000000000).unwrap();
    assert_eq!((blue, total), (756872327473, 1070379110497));
    assert!(is_balanced(blue, total));
}

#[test]
fn first_arrangement_up_to_the_last_that_fits() {
    let last = (5874690117631298043u64, 8308066439093374804u64);
    assert!(is_balanced(last.0, last.1));
    assert_eq!(first_arrangement(u64::MAX / 7), Some(last));
    assert_eq!(first_arrangement(last.1), Some(last));
    assert_eq!(first_arrangement(last.1 - 1), Some(last));
}

#[test]
fn first_arrangement_beyond_the_last_that_fits() {
    assert_eq!(first_arrangement(8308066439093374805), None);
    assert_eq!(first_arrangement(u64::MAX), None);
}

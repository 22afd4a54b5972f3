use pairwise_bench::stats::{decide, total_and_squares};

#[test]
fn totals_of_a_small_sample() {
    assert_eq!(total_and_squares(&[3, -4]), (-1, Some(25)));
    assert_eq!(total_and_squares(&[]), (0, Some(0)));
    assert_eq!(total_and_squares(&[7, 0, -7, 2]), (2, Some(102)));
}

#[test]
fn totals_at_the_ends_of_the_range() {
    let square: u128 = 1u128 << 126;
    assert_eq!(total_and_squares(&[i64::MIN]), (i64::MIN as i128, Some(square)));
    assert_eq!(
        total_and_squares(&[i64::MIN, i64::MIN, i64::MIN]),
        (3 * (i64::MIN as i128), Some(3 * square))
    );
    let max_square: u128 = (i64::MAX as u128) * (i64::MAX as u128);
    assert_eq!(
        total_and_squares(&[i64::MAX, i64::MIN]),
        (-1, Some(square + max_square))
    );
}

#[test]
fn squares_that_do_not_fit_are_not_given() {
    let (total, squares) = total_and_squares(&[i64::MIN; 4]);
    assert_eq!(total, 4 * (i64::MIN as i128));
    assert_eq!(squares, None);
    let (total, squares) = total_and_squares(&[i64::MIN, i64::MIN, i64::MIN, i64::MIN, 5]);
    assert_eq!(total, 4 * (i64::MIN as i128) + 5);
    assert_eq!(squares, None);
}

#[test]
fn a_mean_of_zero_is_never_significant() {
    assert_eq!(decide(50, 0, 0), Some(false));
    assert_eq!(decide(50, 0, 1000), Some(false));
    assert_eq!(decide(0, 0, 0), Some(false));
}

#[test]
fn a_mean_without_variance_is_significant() {
    // 50 differences of 10000 each
    assert_eq!(decide(50, 500_000, 5_000_000_000), Some(true));
    // 50 differences of -1 each
    assert_eq!(decide(50, -50, 50), Some(true));
}

#[test]
fn the_threshold_is_a_z_score_of_two_point_six() {
    // two differences of sum 13 and sum of squares 97: z is 2.6 exactly
    assert_eq!(decide(2, 13, 97), Some(true));
    assert_eq!(decide(2, -13, 97), Some(true));
    assert_eq!(decide(2, 13, 98), Some(false));
    assert_eq!(decide(2, -13, 98), Some(false));
    assert_eq!(decide(2, 12, 97), Some(false));
    // (25 * 3 + 144) * 9 = 1971 against 169 * 3 * 65 = 32955
    assert_eq!(decide(3, 3, 65), Some(false));
    // (25 * 2 + 144) * 25 = 4850 against 169 * 2 * 13 = 4394
    assert_eq!(decide(2, 5, 13), Some(true));
}

#[test]
fn noise_is_not_significant_and_a_shift_is() {
    assert_eq!(decide(200, -123, 88585), Some(false));
    assert_eq!(decide(200, 4082, 171854), Some(true));
}

#[test]
fn the_test_is_not_decided_where_it_does_not_fit() {
    // 169 * 2 * 2^125 is above 2^128
    assert_eq!(decide(2, 0, 1u128 << 125), None);
    assert_eq!(decide(2, 1, u128::MAX), None);
    assert_eq!(decide(usize::MAX, 1, u128::MAX / 169), None);
    // 169 * 1 * (u128::MAX / 169) fits
    assert_eq!(decide(1, 1, u128::MAX / 169), Some(false));
    assert_eq!(decide(1, 0, u128::MAX / 169), Some(false));
}

#[test]
fn a_large_total_is_significant_where_its_square_does_not_fit() {
    // the square of the total is above 2^128, the bound is not
    assert_eq!(decide(2, i128::MAX, 1u128 << 100), Some(true));
    assert_eq!(decide(2, i128::MIN, 1u128 << 100), Some(true));
    // the square fits, its weighted form does not
    assert_eq!(decide(1000, 1i128 << 63, 1u128 << 100), Some(true));
}

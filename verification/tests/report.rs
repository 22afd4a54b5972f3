use pairwise_bench::{report, ReportError, Summary};

fn next(state: &mut u64) -> u64 {
    *state = state
        .wrapping_mul(6364136223846793005)
        .wrapping_add(1442695040888963407);
    *state >> 33
}

fn noisy(seed: u64, shift: u64, n: usize) -> Vec<(u64, u64)> {
    let mut state = seed;
    let mut pairs = Vec::new();
    for _ in 0..n {
        let base = 1000 + next(&mut state) % 50;
        let candidate = 1000 + shift + next(&mut state) % 50;
        pairs.push((base, candidate));
    }
    pairs
}

fn ok(result: Result<Summary, ReportError>) -> Summary {
    match result {
        Ok(summary) => summary,
        Err(e) => panic!("no report: {:?}", e),
    }
}

#[test]
fn identical_durations_show_no_change() {
    let input = vec![(100u64, 100u64); 50];
    let summary = ok(report("same / same", &input));
    assert_eq!(summary.name, "same / same");
    assert_eq!(summary.trials, 50);
    assert_eq!(summary.base_min, 100);
    assert_eq!(summary.candidate_min, 100);
    assert_eq!(summary.base_total, 5000);
    assert_eq!(summary.candidate_total, 5000);
    assert_eq!(summary.diff_total, 0);
    assert_eq!(summary.diff_square_total, 0);
    assert!(!summary.change_detected);
}

#[test]
fn identical_but_varying_durations_show_no_change() {
    let input: Vec<(u64, u64)> = (0..1234u64).map(|i| (i * i % 977, i * i % 977)).collect();
    let summary = ok(report("varying", &input));
    assert_eq!(summary.diff_total, 0);
    assert!(!summary.change_detected);
}

#[test]
fn a_constant_offset_is_a_change() {
    let input: Vec<(u64, u64)> = (0..50u64).map(|i| (100 + i, 10_100 + i)).collect();
    let summary = ok(report("offset", &input));
    assert_eq!(summary.trials, 50);
    assert_eq!(summary.base_min, 100);
    assert_eq!(summary.candidate_min, 10_100);
    assert_eq!(summary.base_total, 6225);
    assert_eq!(summary.candidate_total, 506_225);
    assert_eq!(summary.diff_total, 500_000);
    assert_eq!(summary.diff_square_total, 5_000_000_000);
    assert!(summary.change_detected);
}

#[test]
fn a_constant_negative_offset_is_a_change() {
    let input = vec![(13u64, 12u64); 2];
    let summary = ok(report("faster", &input));
    assert_eq!(summary.diff_total, -2);
    assert_eq!(summary.diff_square_total, 2);
    assert!(summary.change_detected);
}

#[test]
fn noise_is_no_change() {
    let input = noisy(11, 0, 200);
    assert_eq!(&input[..3], &[(1046, 1001), (1043, 1008), (1034, 1033)]);
    let summary = ok(report("noise", &input));
    assert_eq!(summary.trials, 200);
    assert_eq!(summary.base_min, 1000);
    assert_eq!(summary.candidate_min, 1000);
    assert_eq!(summary.base_total, 205_171);
    assert_eq!(summary.candidate_total, 205_048);
    assert_eq!(summary.diff_total, -123);
    assert_eq!(summary.diff_square_total, 88_585);
    assert!(!summary.change_detected);
}

#[test]
fn a_shift_within_noise_is_a_change() {
    let input = noisy(10250741070844014747, 20, 200);
    let summary = ok(report("shift", &input));
    assert_eq!(summary.base_min, 1000);
    assert_eq!(summary.candidate_min, 1020);
    assert_eq!(summary.base_total, 204_662);
    assert_eq!(summary.candidate_total, 208_744);
    assert_eq!(summary.diff_total, 4082);
    assert_eq!(summary.diff_square_total, 171_854);
    assert!(summary.change_detected);
}

#[test]
fn three_trials() {
    let input = vec![(3u64, 10u64), (8, 4), (5, 5)];
    let summary = ok(report("three", &input));
    assert_eq!(summary.trials, 3);
    assert_eq!(summary.base_min, 3);
    assert_eq!(summary.candidate_min, 4);
    assert_eq!(summary.base_total, 16);
    assert_eq!(summary.candidate_total, 19);
    assert_eq!(summary.diff_total, 3);
    assert_eq!(summary.diff_square_total, 65);
    assert!(!summary.change_detected);
}

#[test]
fn two_trials_are_enough() {
    let input = vec![(10u64, 13u64), (10, 12)];
    let summary = ok(report("two", &input));
    assert_eq!(summary.diff_total, 5);
    assert_eq!(summary.diff_square_total, 13);
    assert!(summary.change_detected);
}

#[test]
fn outliers_are_masked_in_the_differences_only() {
    let mut input = vec![(1000u64, 1050u64); 100];
    input[0] = (1, 1050);
    input[1] = (2_000_000, 7);
    let summary = ok(report("masked", &input));
    // minima and totals come from the durations as measured
    assert_eq!(summary.base_min, 1);
    assert_eq!(summary.candidate_min, 7);
    assert_eq!(summary.base_total, 98 * 1000 + 1 + 2_000_000);
    assert_eq!(summary.candidate_total, 99 * 1050 + 7);
    // the differences 1049 and -1999993 are both pulled in to 50
    assert_eq!(summary.diff_total, 100 * 50);
    assert_eq!(summary.diff_square_total, 100 * 2500);
    assert!(summary.change_detected);
}

#[test]
fn fewer_than_two_trials_are_rejected() {
    assert_eq!(report("none", &Vec::new()).err(), Some(ReportError::TooFewTrials));
    assert_eq!(report("one", &vec![(5, 6)]).err(), Some(ReportError::TooFewTrials));
    assert_eq!(
        report("one", &vec![(u64::MAX, 6)]).err(),
        Some(ReportError::TooFewTrials)
    );
}

#[test]
fn durations_beyond_the_range_are_rejected() {
    let limit = i64::MAX as u64;
    assert_eq!(
        report("high base", &vec![(1, 2), (limit + 1, 2), (1, 2)]).err(),
        Some(ReportError::OutOfRange)
    );
    assert_eq!(
        report("high candidate", &vec![(1, 2), (1, 2), (1, u64::MAX)]).err(),
        Some(ReportError::OutOfRange)
    );
    let summary = ok(report("at the limit", &vec![(limit, limit), (limit, limit)]));
    assert_eq!(summary.base_min, limit);
    assert_eq!(summary.base_total, 2 * (limit as u128));
    assert_eq!(summary.diff_total, 0);
    assert!(!summary.change_detected);
}

#[test]
fn a_test_that_does_not_fit_is_rejected() {
    let big = 1u64 << 62;
    assert_eq!(
        report("wide", &vec![(0, big), (big, 0)]).err(),
        Some(ReportError::OutOfRange)
    );
    // the same spread a little narrower fits
    let less = 1u64 << 59;
    let summary = ok(report("narrower", &vec![(0, less), (less, 0)]));
    assert_eq!(summary.diff_total, 0);
    assert_eq!(summary.diff_square_total, 1u128 << 119);
    assert!(!summary.change_detected);
}

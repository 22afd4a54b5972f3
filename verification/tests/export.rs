use pairwise_bench::export_rows;

fn pairs(n: u64) -> Vec<(u64, u64)> {
    (0..n).map(|i| (i, 2 * i + 1)).collect()
}

#[test]
fn nothing_to_export() {
    assert_eq!(export_rows(&Vec::new()), Vec::new());
}

#[test]
fn a_short_run_is_exported_whole() {
    let input = pairs(999);
    assert_eq!(export_rows(&input), input);
    let input = pairs(1);
    assert_eq!(export_rows(&input), vec![(0, 1)]);
}

#[test]
fn a_thousand_pairs_are_a_thousand_rows() {
    let input = pairs(1000);
    assert_eq!(export_rows(&input), input);
}

#[test]
fn every_second_pair_of_two_thousand() {
    let input = pairs(2000);
    let rows = export_rows(&input);
    assert_eq!(rows.len(), 1000);
    for k in 0..1000 {
        assert_eq!(rows[k], input[2 * k]);
    }
}

#[test]
fn every_fiftieth_pair_of_fifty_thousand() {
    let input = pairs(50_000);
    let rows = export_rows(&input);
    assert_eq!(rows.len(), 1000);
    assert_eq!(rows[0], (0, 1));
    assert_eq!(rows[1], (50, 101));
    assert_eq!(rows[999], (49_950, 99_901));
    for k in 0..1000 {
        assert_eq!(rows[k], input[50 * k]);
    }
}

#[test]
fn a_stride_that_does_not_divide_the_length_gives_more_rows() {
    // stride 1
    let input = pairs(1999);
    assert_eq!(export_rows(&input), input);
    // stride 2: indices 0, 2, .., 2498
    let input = pairs(2500);
    let rows = export_rows(&input);
    assert_eq!(rows.len(), 1250);
    for k in 0..1250 {
        assert_eq!(rows[k], input[2 * k]);
    }
    // stride 1: one row more than a thousand
    let input = pairs(1001);
    assert_eq!(export_rows(&input).len(), 1001);
}

#[test]
fn rows_keep_their_order_and_values() {
    let input: Vec<(u64, u64)> = (0..3500u64).map(|i| (7919 * i % 1013, u64::MAX - i)).collect();
    let rows = export_rows(&input);
    // stride 3: indices 0, 3, .., 3498
    assert_eq!(rows.len(), 1167);
    for k in 0..rows.len() {
        assert_eq!(rows[k], input[3 * k]);
    }
    assert!(rows.len() < 2000);
}

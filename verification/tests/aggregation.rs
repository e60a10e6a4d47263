use uipilot::aggregate::{aggregate_points, ViewportPoint};

fn pt(x: i32, y: i32, double: bool) -> ViewportPoint {
    ViewportPoint { x, y, double }
}

#[test]
fn single_sample_is_returned_unchanged() {
    let r = aggregate_points(&vec![pt(37, -4, true)]);
    assert_eq!((r.x, r.y, r.double), (37, -4, true));
}

#[test]
fn iqr_rule_discards_the_outlier() {
    // per axis, [10, 10, 10, 1000]: Q1 = 10, Q3 = 1000 at index 3, the
    // fences still keep 1000? No: sorted [10,10,10,1000], Q1 = v[1] = 10,
    // Q3 = v[3] = 1000, IQR = 990, upper = 1000 + 1485; everything kept.
    // The classic trimming case needs the outlier outside the fences:
    // [10, 10, 10, 10, 1000]: Q1 = v[1] = 10, Q3 = v[3] = 10, IQR = 0,
    // fences [10, 10]: 1000 is discarded and the mean of the rest is 10.
    let samples = vec![
        pt(10, 10, false),
        pt(10, 10, false),
        pt(10, 10, false),
        pt(10, 10, false),
        pt(1000, 1000, false),
    ];
    let r = aggregate_points(&samples);
    assert_eq!((r.x, r.y), (10, 10));
}

#[test]
fn four_samples_with_wide_spread_keep_everything() {
    // [10,10,10,1000]: Q3 sits on the outlier itself, so the fences
    // keep all four and the mean is 257 (truncating)
    let samples = vec![pt(10, 0, false), pt(10, 0, false), pt(10, 0, false), pt(1000, 0, false)];
    let r = aggregate_points(&samples);
    assert_eq!(r.x, 257);
}

#[test]
fn fewer_than_four_samples_use_the_plain_mean() {
    // three samples with a wild outlier: no trimming below four
    let samples = vec![pt(10, 9, false), pt(10, 9, false), pt(1000, 9, false)];
    let r = aggregate_points(&samples);
    assert_eq!(r.x, 340);
    assert_eq!(r.y, 9);
}

#[test]
fn mean_truncates_toward_zero() {
    let r = aggregate_points(&vec![pt(-3, 2, false), pt(-4, 3, false)]);
    assert_eq!(r.x, -3); // -7 / 2 truncates to -3, not -4
    assert_eq!(r.y, 2); // 5 / 2 truncates to 2
}

#[test]
fn double_majority_two_of_three() {
    let r = aggregate_points(&vec![pt(0, 0, true), pt(0, 0, true), pt(0, 0, false)]);
    assert!(r.double);
}

#[test]
fn double_tie_resolves_to_double() {
    let r = aggregate_points(&vec![pt(0, 0, true), pt(0, 0, false)]);
    assert!(r.double);
}

#[test]
fn double_minority_is_single() {
    let r = aggregate_points(&vec![pt(0, 0, false), pt(0, 0, false), pt(0, 0, true)]);
    assert!(!r.double);
}

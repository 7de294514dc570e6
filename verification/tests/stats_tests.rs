use onset::utils::{mean, median, Ratio};

#[test]
fn test_mean() {
    let set: &[i64] = &[1, 2, 3, 4];

    let r = mean(set);
    assert_eq!(r, Ratio { num: 10, den: 4 });
    // 10 / 4 == 2.5
    assert_eq!(2 * r.num, 5 * r.den);
}

#[test]
fn test_median_even() {
    let set: &[i64] = &[1, 2, 3, 4];

    let r = mean(set);
    // 2.5, exactly as for test_mean
    assert_eq!(2 * r.num, 5 * r.den);
}

#[test]
fn test_median_odd() {
    let set: &[i64] = &[1, 2, 3];

    let r = mean(set);
    // 6 / 3 == 2
    assert_eq!(r.num, 2 * r.den);
}

#[test]
fn test_median_one() {
    let set: &[i64] = &[1];

    let r = mean(set);
    assert_eq!(r.num, 1 * r.den);
}

#[test]
fn test_median_values() {
    // Odd length: the middle element.
    assert_eq!(median(&[1, 2, 3]), 2);
    assert_eq!(median(&[3, 1, 2]), 2);
    // Single element.
    assert_eq!(median(&[1]), 1);
    assert_eq!(median(&[7]), 7);
    // Even length: the element just below the middle of the sorted copy,
    // the detector's documented indexing.
    assert_eq!(median(&[1, 2, 3, 4]), 2);
    assert_eq!(median(&[5, 1, 4, 2]), 2);
    // Negative samples sort before positive ones.
    assert_eq!(median(&[-5, 3, -1]), -1);
}

#[test]
fn test_mean_negative() {
    let r = mean(&[-2, 2, -2, 2]);
    assert_eq!(r, Ratio { num: 0, den: 4 });
}

use orderflow_chart::stats::median;
use orderflow_chart::stats::median_absolute_deviation;
use orderflow_chart::MAX_UNIT;

#[test]
fn median_of_four_is_two_and_a_half() {
    let samples: Vec<i64> = vec![1, 2, 3, 4];
    let m = median(&samples);
    // 5/2 == 2.5
    assert_eq!(m.num, 5);
    assert_eq!(m.den, 2);
}

#[test]
fn median_of_three_is_two() {
    let samples: Vec<i64> = vec![1, 2, 3];
    let m = median(&samples);
    // 4/2 == 2
    assert_eq!(m.num, 4);
    assert_eq!(m.den, 2);
}

#[test]
fn median_is_invariant_under_reordering() {
    let a: Vec<i64> = vec![1, 2, 3, 4];
    let b: Vec<i64> = vec![4, 2, 1, 3];
    let c: Vec<i64> = vec![3, 1, 4, 2];
    let ma = median(&a);
    let mb = median(&b);
    let mc = median(&c);
    assert_eq!((ma.num, ma.den), (mb.num, mb.den));
    assert_eq!((ma.num, ma.den), (mc.num, mc.den));
}

#[test]
fn median_of_singleton_and_duplicates() {
    let one: Vec<i64> = vec![7];
    let m = median(&one);
    assert_eq!((m.num, m.den), (14, 2));

    let dup: Vec<i64> = vec![5, 5, 5, 5];
    let md = median(&dup);
    assert_eq!((md.num, md.den), (10, 2));
}

#[test]
fn median_at_the_magnitude_bound() {
    let samples: Vec<i64> = vec![MAX_UNIT, MAX_UNIT];
    let m = median(&samples);
    assert_eq!(m.num, 2 * MAX_UNIT);
    assert_eq!(m.den, 2);

    let neg: Vec<i64> = vec![-MAX_UNIT, MAX_UNIT];
    let mn = median(&neg);
    assert_eq!((mn.num, mn.den), (0, 2));
}

#[test]
fn mad_of_one_to_four_is_one() {
    let samples: Vec<i64> = vec![1, 2, 3, 4];
    let center = median(&samples);
    let mad = median_absolute_deviation(&samples, center);
    // deviations from 2.5 are 1.5, 0.5, 0.5, 1.5; their median is 1: 4/4.
    assert_eq!(mad.num, 4);
    assert_eq!(mad.den, 4);
}

#[test]
fn mad_is_invariant_under_reordering() {
    let a: Vec<i64> = vec![10, 40, 20, 30, 500];
    let b: Vec<i64> = vec![500, 30, 10, 20, 40];
    let ca = median(&a);
    let cb = median(&b);
    assert_eq!((ca.num, ca.den), (cb.num, cb.den));
    let da = median_absolute_deviation(&a, ca);
    let db = median_absolute_deviation(&b, cb);
    assert_eq!((da.num, da.den), (db.num, db.den));
}

#[test]
fn mad_of_identical_samples_is_zero() {
    let samples: Vec<i64> = vec![9, 9, 9];
    let center = median(&samples);
    let mad = median_absolute_deviation(&samples, center);
    assert_eq!(mad.num, 0);
    assert_eq!(mad.den, 4);
}

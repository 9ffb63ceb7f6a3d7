use approx::RelativeEq;
use etherealpost::stats::{market_price, mean, percentile_index, std_dev, Ratio, StdDev, PERCENT};

const MAX_RELATIVE_DIFF: f64 = 0.000000001;

fn value(ratio: Ratio) -> f64 {
    ratio.numerator as f64 / ratio.denominator as f64
}

fn deviation(std_dev: StdDev) -> f64 {
    value(std_dev.variance).sqrt()
}

fn close(expected: f64, actual: f64) -> bool {
    expected.relative_eq(&actual, f64::EPSILON, MAX_RELATIVE_DIFF)
}

#[test]
fn stats_market_price_large_data() {
    let arr: [u64; 31] = [
        60000, 60000, 60000, 60000, 60000, 50000, 50000, 50000, 50000, 50000, 50000, 50000,
        50000, 50000, 50000, 54500, 54500, 54500, 54500, 54500, 54500, 54500, 54500, 54500,
        54500, 54500, 54500, 54500, 54500, 54500, 40000,
    ];
    let res = market_price(&arr).unwrap();
    assert_eq!(47500, res);
}

#[test]
fn stats_mean_non_integer_mean() {
    assert_eq!(2.5, value(mean(&[1, 2, 3, 4])))
}

#[test]
fn stats_mean_simple_ordered() {
    assert_eq!(2.0, value(mean(&[1, 2, 3])));
}

#[test]
fn stats_mean_simple_unordered() {
    assert_eq!(2.0, value(mean(&[3, 1, 2])));
}

#[test]
fn stats_percentile_index_0th_for_1() {
    assert_eq!(0, percentile_index(0 * PERCENT, 1))
}

#[test]
fn stats_percentile_index_0th_for_50() {
    assert_eq!(0, percentile_index(0 * PERCENT, 50))
}

#[test]
fn stats_percentile_index_100th_for_1() {
    assert_eq!(0, percentile_index(100 * PERCENT, 1))
}

#[test]
fn stats_percentile_index_15_87_for_10000() {
    // 15.87 % of 10000 elements are 1587 elements, the last of which has index 1586.
    assert_eq!(1586, percentile_index(15 * PERCENT + 87, 10000))
}

#[test]
fn stats_percentile_index_15_87th_for_1000() {
    assert_eq!(157, percentile_index(15 * PERCENT + 87, 1000))
}

#[test]
fn stats_percentile_index_1st_for_50() {
    assert_eq!(0, percentile_index(1 * PERCENT, 50))
}

#[test]
fn stats_percentile_index_2nd_for_50() {
    assert_eq!(0, percentile_index(2 * PERCENT, 50))
}

#[test]
fn stats_percentile_index_3rd_for_50() {
    assert_eq!(0, percentile_index(3 * PERCENT, 50))
}

#[test]
fn stats_percentile_index_4th_for_50() {
    assert_eq!(1, percentile_index(4 * PERCENT, 50))
}

#[test]
fn stats_percentile_index_50th_for_1() {
    assert_eq!(0, percentile_index(50 * PERCENT, 1));
}

#[test]
fn stats_percentile_index_50th_for_35() {
    assert_eq!(16, percentile_index(50 * PERCENT, 35))
}

#[test]
fn stats_std_dev_invalid_array_size() {
    let mut arr0: [u64; 0] = [];
    let mut arr1: [u64; 1] = [1];

    let res0 = std_dev(&mut arr0, false);
    assert!(res0.is_none());

    let res1 = std_dev(&mut arr1, false);
    assert!(res1.is_none());
}

#[test]
fn stats_std_dev_population_even_len() {
    assert!(close(
        0.82915619758,
        deviation(std_dev(&mut [1, 2, 3, 3], true).unwrap())
    ));
}

#[test]
fn stats_std_dev_population_large_arr() {
    let mut arr: [u64; 20] = [
        9, 30, 51, 66, 139, 159, 179, 181, 196, 249, 282, 296, 301, 356, 384, 410, 455, 461,
        475, 481,
    ];
    let res = std_dev(&mut arr, true);
    assert!(close(152.1584700238, deviation(res.unwrap())));
}

#[test]
fn stats_std_dev_population_odd_len() {
    assert!(close(
        0.81649658092,
        deviation(std_dev(&mut [1, 2, 3], true).unwrap())
    ));
}

#[test]
fn stats_std_dev_sample_even_len() {
    assert!(close(
        0.95742710775,
        deviation(std_dev(&mut [1, 2, 3, 3], false).unwrap())
    ));
}

#[test]
fn stats_std_dev_sample_large_arr() {
    let mut arr: [u64; 20] = [
        9, 30, 51, 66, 139, 159, 179, 181, 196, 249, 282, 296, 301, 356, 384, 410, 455, 461,
        475, 481,
    ];
    let res = std_dev(&mut arr, false).unwrap();
    assert!(close(156.111296330, deviation(res)));
}

#[test]
fn stats_std_dev_sample_odd_len() {
    assert_eq!(1.0, deviation(std_dev(&mut [1, 2, 3], false).unwrap()))
}

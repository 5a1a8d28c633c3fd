use scalper::dec::Dec;
use scalper::utils::{atr, avg, ceil_to_step, find_price_clusters, percentiles, sma, wsma, PriceClusterSide};
use std::collections::HashMap;

fn d(m: i128, scale: u32) -> Dec {
    Dec::from_parts(m, scale)
}

fn n(v: i64) -> Dec {
    Dec::from_int(v)
}

#[test]
fn test_sma() {
    let v = vec![n(1)];
    assert_eq!(Some(n(1)), sma(&v, 1));

    let v = vec![n(1), n(2), n(3)];
    assert_eq!(n(2), sma(&v, 3).unwrap().round_dp(1));

    let v = vec![n(1), n(2), n(3), n(4)];
    assert_eq!(n(2), sma(&v, 3).unwrap().round_dp(1));
}

#[test]
fn test_wsma() {
    let v = vec![n(1)];
    assert_eq!(Some(n(1)), wsma(&v, 1));

    let v = vec![n(1), n(2), n(3)];
    assert_eq!(d(21, 1), wsma(&v, 3).unwrap().round_dp(1));

    let v = vec![n(1), n(2), n(3), n(4)];
    assert_eq!(d(21, 1), wsma(&v, 3).unwrap().round_dp(1));
}

#[test]
fn test_candles_percentiles() {
    let prices = vec![n(0)];
    let p = percentiles(&prices);
    let expected: HashMap<u8, Dec> = (1..=9u8).map(|k| (k * 10, n(0))).collect();
    assert_eq!(p, expected);

    let prices = vec![d(5, 1), d(15, 1), d(15, 1), n(10)];
    let p = percentiles(&prices);
    assert_eq!(
        p,
        HashMap::from([
            (10_u8, d(5, 1)),
            (20_u8, d(15, 1)),
            (30_u8, d(15, 1)),
            (40_u8, d(15, 1)),
            (50_u8, d(15, 1)),
            (60_u8, d(15, 1)),
            (70_u8, n(10)),
            (80_u8, n(10)),
            (90_u8, n(10)),
        ])
    );
}

#[test]
fn test_ceil_to_step() {
    let value = d(300001, 3);
    let step = d(1, 2);
    assert_eq!(d(30001, 2), ceil_to_step(value, step));

    let value = d(10489630, 6);
    let step = d(1, 2);
    assert_eq!(d(1049, 2), ceil_to_step(value, step));
}

#[test]
fn sma_of_recent_three() {
    let v = vec![n(5), n(4), n(3), n(2), n(1)];
    assert_eq!(Some(n(4)), sma(&v, 3));
}

#[test]
fn sma_needs_enough_samples() {
    let v = vec![n(5), n(4)];
    assert_eq!(None, sma(&v, 3));
    assert_eq!(None, sma(&v, 0));
}

#[test]
fn wsma_of_constant_series_is_the_constant() {
    let v = vec![d(1234, 2); 20];
    assert_eq!(Some(d(1234, 2)), wsma(&v, 14));
    assert_eq!(None, wsma(&v, 21));
}

#[test]
fn wsma_steps_toward_newer_samples() {
    // seeded with 3, stepped with 3, 2 (giving 3 - 1/3), then 1 (taking off 5/9)
    let v = vec![n(1), n(2), n(3)];
    assert_eq!(Dec::from_units(21_111_111_112), wsma(&v, 3).unwrap());
}

#[test]
fn atr_of_flat_candles_is_zero() {
    let c = vec![(n(7), n(7), n(7)); 5];
    assert_eq!(Some(n(0)), atr(&c, 5));
}

#[test]
fn atr_takes_largest_range() {
    // high 10, low 8, previous close 5: the gap to the close (5) wins; then 6 - 4 = 2
    let c = vec![(n(10), n(8), n(5)), (n(6), n(4), n(5))];
    assert_eq!(Some(d(35, 1)), atr(&c, 2));
    assert_eq!(None, atr(&c, 3));
}

#[test]
fn avg_of_prices() {
    assert_eq!(Some(n(2)), avg(&[n(1), n(2), n(3)]));
    assert_eq!(None, avg(&[]));
}

#[test]
fn clusters_merge_close_supports() {
    // troughs at 5 and 5.2 (within 0.5) merge to 5.1; trough at 9 stays apart
    let prices = vec![n(10), n(5), n(11), d(52, 1), n(12), n(9), n(13)];
    let levels = find_price_clusters(&prices, d(5, 1), PriceClusterSide::Support);
    assert_eq!(levels, vec![n(9), d(51, 1)]);
}

#[test]
fn clusters_of_resistances_ascend() {
    let prices = vec![n(1), n(9), n(2), n(5), n(1)];
    let levels = find_price_clusters(&prices, d(1, 1), PriceClusterSide::Resistance);
    assert_eq!(levels, vec![n(5), n(9)]);
}

#[test]
fn clusters_of_short_series_are_empty() {
    assert!(find_price_clusters(&[], n(1), PriceClusterSide::Support).is_empty());
    assert!(find_price_clusters(&[n(1), n(2)], n(1), PriceClusterSide::Support).is_empty());
}

#[test]
fn decimal_arithmetic_rounds_toward_zero() {
    assert_eq!(n(1).div(n(3)), Dec::from_units(3_333_333_333));
    assert_eq!(n(-1).div(n(3)), Dec::from_units(-3_333_333_333));
    assert_eq!(d(15, 1).mul(d(15, 1)), d(225, 2));
    assert_eq!(d(25, 1).round_dp(0), n(2));
    assert_eq!(d(35, 1).round_dp(0), n(4));
}

#[test]
fn decimal_saturates_at_its_limit() {
    let limit = Dec::from_units(scalper::dec::LIMIT);
    assert_eq!(Dec::from_units(i128::MAX), limit);
    assert_eq!(limit.add(n(1)), limit);
    assert_eq!(limit.mul(limit), limit);
    assert_eq!(limit.neg().sub(n(1)), limit.neg());
    assert_eq!(Dec::from_parts(1, 60), n(0));
}

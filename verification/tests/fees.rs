use raptorbt::fees::applicable_tier;

#[test]
fn a_trade_takes_the_last_tier_it_reaches() {
    let thresholds = [0_i64, 1_000, 10_000];
    assert_eq!(applicable_tier(&thresholds, 5_000), Some(1));
    assert_eq!(applicable_tier(&thresholds, 10_000), Some(2));
    assert_eq!(applicable_tier(&thresholds, 999), Some(0));
    assert_eq!(applicable_tier(&thresholds, 0), Some(0));
}

#[test]
fn a_trade_below_the_first_threshold_takes_no_tier() {
    assert_eq!(applicable_tier(&[100, 200], 99), None);
    assert_eq!(applicable_tier(&[], 1_000_000), None);
}

#[test]
fn the_reading_stops_at_the_first_threshold_not_reached() {
    // Out of order: 50 would be reached, but 100 before it is not.
    assert_eq!(applicable_tier(&[100, 50, 200], 60), None);
    assert_eq!(applicable_tier(&[100, 50, 200], 150), Some(1));
    assert_eq!(applicable_tier(&[100, 50, 200], 250), Some(2));
}

#[test]
fn a_larger_trade_never_falls_in_an_earlier_tier() {
    let thresholds = [10_i64, 20, 15, 40];
    let mut last: Option<usize> = None;
    for value in 0..60 {
        let tier = applicable_tier(&thresholds, value);
        assert!(tier.map_or(0, |t| t + 1) >= last.map_or(0, |t| t + 1));
        last = tier;
    }
}

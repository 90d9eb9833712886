use postflop_core::stats::{
    empty_mask, eqr_base, eqr_report, round_tiered, trunc_weights, weighted_average,
    weighted_average_range, weights_all_zero,
};

#[test]
fn rounding_keeps_six_significant_digits_by_tier() {
    // below 1.0: the micro-unit granule is the identity
    assert_eq!(round_tiered(123_456), 123_456);
    assert_eq!(round_tiered(999_999), 999_999);
    // 1.234567 rounds at the 1e-5 granule
    assert_eq!(round_tiered(1_234_567), 1_234_570);
    // 12.345678 at 1e-4
    assert_eq!(round_tiered(12_345_678), 12_345_700);
    // 123.4567890 at 1e-3
    assert_eq!(round_tiered(123_456_789), 123_457_000);
    // 1234.5678901 at 1e-2
    assert_eq!(round_tiered(1_234_567_890), 1_234_570_000);
    // 12345.678901 at 1e-1
    assert_eq!(round_tiered(12_345_678_901), 12_345_700_000);
}

#[test]
fn rounding_halves_go_away_from_zero() {
    assert_eq!(round_tiered(1_000_005), 1_000_010);
    assert_eq!(round_tiered(1_000_004), 1_000_000);
}

#[test]
fn negative_values_round_at_the_finest_granule() {
    // a negative value is below 1.0, so it keeps micro precision
    assert_eq!(round_tiered(-1_234_567), -1_234_567);
    assert_eq!(round_tiered(-5), -5);
}

#[test]
fn zero_rounded_equity_gives_the_undefined_signal() {
    assert_eq!(eqr_report(500_000, 100, 0), None);
    assert_eq!(eqr_report(-123, 7, 0), None);
    assert!(eqr_report(500_000, 100, 1).is_some());
}

#[test]
fn eqr_is_the_ev_share_of_the_equity_pot() {
    // ev 0.5 chips, pot 100 chips, equity 0.5: eqr = 0.5 / 50 = 0.01
    assert_eq!(eqr_report(500_000, 100, 500_000), Some(10_000));
    // ev 50 chips, pot 100 chips, equity 0.5: eqr = 1.0
    assert_eq!(eqr_report(50_000_000, 100, 500_000), Some(1_000_000));
    // negative ev keeps its sign
    assert_eq!(eqr_report(-50_000_000, 100, 500_000), Some(-1_000_000));
}

#[test]
fn weight_truncation_drops_dust() {
    let v = trunc_weights(&vec![0, 499, 500, 1_000_000]);
    assert_eq!(v, vec![0, 0, 500, 1_000_000]);
}

#[test]
fn emptiness_and_the_bitmask() {
    assert!(weights_all_zero(&vec![0, 0, 0]));
    assert!(!weights_all_zero(&vec![0, 1]));
    assert_eq!(empty_mask(false, false), 0);
    assert_eq!(empty_mask(true, false), 1);
    assert_eq!(empty_mask(false, true), 2);
    assert_eq!(empty_mask(true, true), 3);
}

#[test]
fn eqr_bases_add_the_matched_amount_and_own_bets() {
    assert_eq!(eqr_base(100, 0, 0), (100, 100));
    assert_eq!(eqr_base(100, 50, 250), (200, 400));
}

#[test]
fn weighted_average_is_the_weighted_mean() {
    assert_eq!(
        weighted_average(&vec![1_000_000, 3_000_000], &vec![1_000_000, 1_000_000]),
        Some(2_000_000)
    );
    assert_eq!(
        weighted_average(&vec![1_000_000, 3_000_000], &vec![1_000_000, 0]),
        Some(1_000_000)
    );
    // all-zero weights have nothing to average over
    assert_eq!(weighted_average(&vec![1_000_000], &vec![0]), None);
}

#[test]
fn strategy_summaries_average_one_action_slice() {
    // a flattened two-action strategy over two hands
    let strategy = vec![250_000, 750_000, 750_000, 250_000];
    let weights = vec![1_000_000, 1_000_000];
    assert_eq!(
        weighted_average_range(&strategy, 0, 2, &weights),
        Some(500_000)
    );
    assert_eq!(
        weighted_average_range(&strategy, 2, 4, &vec![1_000_000, 0]),
        Some(750_000)
    );
}

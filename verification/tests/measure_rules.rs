//! Units and thresholds.

use gps_trajectory_validation::measure::{
    add_distance, confidence, is_outlier, turn_angle, Leg, Survey, FULL_CONFIDENCE, FULL_TURN,
    HALF_TURN, MAX_BEARING, MAX_DELTA_IN_MILLISECONDS, MAX_DISTANCE, MAX_POINTS_DELTA,
    MIN_DISTANCE, OUTLIER_THRESHOLD, SHORT_HOP, WINDOW_MAJORITY, WINDOW_SIZE, WINDOW_SPAN,
};

#[test]
fn thresholds_have_their_reference_values() {
    assert_eq!(MAX_POINTS_DELTA, 1_000_000);
    assert_eq!(MAX_BEARING, 50_000_000);
    assert_eq!(SHORT_HOP, 250_000);
    assert_eq!(WINDOW_SPAN, 100_000);
    assert_eq!(WINDOW_SIZE, 5);
    assert_eq!(WINDOW_MAJORITY, 3);
    assert_eq!(MIN_DISTANCE, 1_000_000);
    assert_eq!(MAX_DISTANCE, 80_000_000);
    assert_eq!(MAX_DELTA_IN_MILLISECONDS, 90_000);
    assert_eq!(OUTLIER_THRESHOLD, 1_000);
    assert_eq!(FULL_CONFIDENCE, 1_000_000);
    assert_eq!(FULL_TURN, 360_000_000);
    assert_eq!(HALF_TURN, 180_000_000);
}

#[test]
fn turn_angle_is_the_folded_difference() {
    assert_eq!(turn_angle(0, 0), 0);
    assert_eq!(turn_angle(0, 288_000_000), 72_000_000);
    assert_eq!(turn_angle(288_000_000, 0), 72_000_000);
    assert_eq!(turn_angle(10_000_000, 350_000_000), 20_000_000);
    assert_eq!(turn_angle(350_000_000, 10_000_000), 20_000_000);
    assert_eq!(turn_angle(0, 180_000_000), 180_000_000);
    assert_eq!(turn_angle(90_000_000, 270_000_000), 180_000_000);
    assert_eq!(turn_angle(0, 180_000_001), 179_999_999);
}

#[test]
fn turn_angle_takes_bearings_beyond_a_full_turn() {
    assert_eq!(turn_angle(360_000_000, 0), 0);
    assert_eq!(turn_angle(370_000_000, 20_000_000), 10_000_000);
    assert_eq!(turn_angle(u32::MAX, u32::MAX), 0);
}

#[test]
fn turn_angle_is_symmetric_and_bounded() {
    let bearings = [0, 1, 49_999_999, 50_000_000, 179_999_999, 180_000_000, 359_999_999];
    for a in bearings {
        for b in bearings {
            assert_eq!(turn_angle(a, b), turn_angle(b, a));
            assert!(turn_angle(a, b) <= HALF_TURN);
        }
    }
}

#[test]
fn confidence_is_one_minus_the_ratio() {
    assert_eq!(confidence(0, 7), 1_000_000);
    assert_eq!(confidence(1, 4), 750_000);
    assert_eq!(confidence(1, 3), 666_667);
    assert_eq!(confidence(2, 3), 333_334);
    assert_eq!(confidence(999_999, 1_000_000), 1);
}

#[test]
fn confidence_is_nothing_once_the_distance_reaches_the_scale() {
    assert_eq!(confidence(5, 5), 0);
    assert_eq!(confidence(6, 5), 0);
    assert_eq!(confidence(u64::MAX, 1), 0);
    assert_eq!(confidence(0, 0), 0);
    assert_eq!(confidence(3, 0), 0);
}

#[test]
fn confidence_stays_in_range_for_large_values() {
    assert_eq!(confidence(u64::MAX - 1, u64::MAX), 1);
    assert_eq!(confidence(u64::MAX / 2, u64::MAX), 500_001);
    assert!(confidence(12_345_678_901_234, 98_765_432_109_876) <= FULL_CONFIDENCE);
}

#[test]
fn distances_add_up_to_the_largest_distance() {
    assert_eq!(add_distance(1, 2), 3);
    assert_eq!(add_distance(u64::MAX - 1, 1), u64::MAX);
    assert_eq!(add_distance(u64::MAX, 1), u64::MAX);
    assert_eq!(add_distance(u64::MAX, u64::MAX), u64::MAX);
}

#[test]
fn outlier_threshold_is_exclusive() {
    assert!(!is_outlier(0));
    assert!(!is_outlier(1_000));
    assert!(is_outlier(1_001));
}

#[test]
fn survey_reads_missing_pairs_as_unmeasured() {
    let survey = Survey::new(vec![
        vec![Leg { distance: 0, bearing: 0 }, Leg { distance: 7, bearing: 90_000_000 }],
        vec![Leg { distance: 7, bearing: 270_000_000 }],
    ]);
    assert_eq!(survey.distance(0, 1), 7);
    assert_eq!(survey.leg(0, 1).bearing, 90_000_000);
    assert_eq!(survey.distance(1, 0), 7);
    assert_eq!(survey.distance(1, 1), u64::MAX);
    assert_eq!(survey.leg(1, 1).bearing, 0);
    assert_eq!(survey.distance(2, 0), u64::MAX);
    assert_eq!(survey.distance(0, 2), u64::MAX);
}

#[test]
fn survey_turn_is_the_angle_between_the_two_bearings_from_the_middle() {
    let north = Leg { distance: 1, bearing: 0 };
    let east = Leg { distance: 1, bearing: 90_000_000 };
    let west = Leg { distance: 1, bearing: 270_000_000 };
    let survey = Survey::new(vec![
        vec![north, north, north],
        vec![west, north, east],
        vec![north, north, north],
    ]);
    assert_eq!(survey.turn(0, 1, 2), 180_000_000);
    assert_eq!(survey.turn(2, 1, 0), 180_000_000);
    assert_eq!(survey.turn(0, 1, 0), 0);
    assert_eq!(survey.turn(0, 1, 1), 90_000_000);
}

//! The steps of the common-route extraction, each on a hand-made survey.

use gps_trajectory_validation::measure::{Leg, Survey};
use gps_trajectory_validation::point::PointWithId;
use gps_trajectory_validation::route::{
    classify_segments, common_route, consolidate_windows, filter_bearings, filter_turns,
    find_drop_off, measure_segments, SegmentKind,
};

/// One point per letter of `owners`, one second apart, each owned by the trace named by
/// its letter.
fn points_owned_by(owners: &str) -> Vec<PointWithId> {
    owners
        .chars()
        .enumerate()
        .map(|(i, owner)| PointWithId {
            id: format!("p{}", i),
            x: i as u64,
            y: 0,
            trace_id: owner.to_string(),
            timestamp: 1_000 * i as i64,
        })
        .collect()
}

/// A survey of `n` points in which every leg is `far` long and points north, but for the
/// legs listed.
fn survey_with(n: usize, far: u64, listed: &[(usize, usize, u64, u32)]) -> Survey {
    let mut legs = vec![vec![Leg { distance: far, bearing: 0 }; n]; n];
    for &(from, to, distance, bearing) in listed {
        legs[from][to] = Leg { distance, bearing };
    }
    Survey::new(legs)
}

#[test]
fn drop_off_is_the_last_close_point_of_the_trace_that_stops_first() {
    let points = points_owned_by("abba");
    let survey = survey_with(4, 5_000_000, &[(1, 0, 999_999, 0)]);
    assert_eq!(find_drop_off(&points, &survey), Some(1));
    let survey = survey_with(4, 5_000_000, &[(1, 0, 999_999, 0), (2, 3, 10, 0)]);
    assert_eq!(find_drop_off(&points, &survey), Some(2));
}

#[test]
fn drop_off_needs_a_point_strictly_within_the_radius() {
    let points = points_owned_by("abba");
    let survey = survey_with(4, 5_000_000, &[(1, 0, 1_000_000, 0)]);
    assert_eq!(find_drop_off(&points, &survey), None);
    let survey = survey_with(4, 5_000_000, &[(1, 3, 999_999, 0)]);
    assert_eq!(find_drop_off(&points, &survey), Some(1));
}

#[test]
fn drop_off_ignores_points_of_the_trace_that_owns_the_last_point() {
    // Point 2 is close to point 0, but both belong to the trace of the last point.
    let points = points_owned_by("abaa");
    let survey = survey_with(4, 5_000_000, &[(2, 0, 1, 0), (0, 2, 1, 0)]);
    assert_eq!(find_drop_off(&points, &survey), None);
    // Closeness to a point of its own trace does not make point 1 the drop-off either.
    let points = points_owned_by("abba");
    let survey = survey_with(4, 5_000_000, &[(1, 2, 1, 0), (2, 1, 1, 0)]);
    assert_eq!(find_drop_off(&points, &survey), None);
}

#[test]
fn drop_off_is_missing_without_points_or_with_one_trace_only() {
    assert_eq!(find_drop_off(&Vec::new(), &survey_with(0, 0, &[])), None);
    assert_eq!(find_drop_off(&points_owned_by("aaa"), &survey_with(3, 0, &[])), None);
    assert!(common_route(&points_owned_by("aaa"), &survey_with(3, 0, &[])).is_none());
}

#[test]
fn unmeasured_points_are_never_close() {
    let points = points_owned_by("abab");
    assert_eq!(find_drop_off(&points, &Survey::new(Vec::new())), None);
}

#[test]
fn segments_are_runs_of_one_owner_and_stretches_of_alternation() {
    let points = points_owned_by("aababb");
    let segments = classify_segments(&points);
    let shape: Vec<(SegmentKind, usize, usize)> =
        segments.iter().map(|s| (s.kind, s.start, s.end)).collect();
    assert_eq!(
        shape,
        vec![
            (SegmentKind::Homogeneous, 0, 2),
            (SegmentKind::Mixed, 2, 4),
            (SegmentKind::Homogeneous, 4, 6),
        ]
    );
}

#[test]
fn segments_of_small_windows() {
    assert!(classify_segments(&points_owned_by("ab")[..0]).is_empty());
    let one = classify_segments(&points_owned_by("ab")[..1]);
    assert_eq!((one[0].kind, one[0].start, one[0].end), (SegmentKind::Mixed, 0, 1));
    let mixed = classify_segments(&points_owned_by("ab"));
    assert_eq!(mixed.len(), 1);
    assert_eq!((mixed[0].kind, mixed[0].start, mixed[0].end), (SegmentKind::Mixed, 0, 2));
    let run = classify_segments(&points_owned_by("aa"));
    assert_eq!((run[0].kind, run[0].start, run[0].end), (SegmentKind::Homogeneous, 0, 2));
}

#[test]
fn segments_stop_at_the_end_of_the_window() {
    // Within the first three points the third has no successor, so it is alone.
    let points = points_owned_by("aabb");
    let shape: Vec<(SegmentKind, usize, usize)> =
        classify_segments(&points[..3]).iter().map(|s| (s.kind, s.start, s.end)).collect();
    assert_eq!(shape, vec![(SegmentKind::Homogeneous, 0, 2), (SegmentKind::Mixed, 2, 3)]);
}

#[test]
fn a_run_ends_where_the_owner_changes() {
    let points = points_owned_by("aabbb");
    let shape: Vec<(SegmentKind, usize, usize)> =
        classify_segments(&points).iter().map(|s| (s.kind, s.start, s.end)).collect();
    assert_eq!(shape, vec![(SegmentKind::Homogeneous, 0, 2), (SegmentKind::Homogeneous, 2, 5)]);
}

#[test]
fn common_distance_sums_the_legs_inside_segments_only() {
    let points = points_owned_by("aababb");
    let survey = survey_with(
        6,
        0,
        &[(0, 1, 1, 0), (1, 2, 10, 0), (2, 3, 100, 0), (3, 4, 1_000, 0), (4, 5, 10_000, 0)],
    );
    assert_eq!(measure_segments(&points, &survey), 10_101);
    assert_eq!(measure_segments(&points[..2], &survey), 1);
    assert_eq!(measure_segments(&points[..1], &survey), 0);
    assert_eq!(measure_segments(&points[..0], &survey), 0);
}

#[test]
fn common_distance_of_alternating_points_is_the_length_of_the_whole_window() {
    let points = points_owned_by("ababa");
    let survey =
        survey_with(5, 0, &[(0, 1, 1, 0), (1, 2, 20, 0), (2, 3, 300, 0), (3, 4, 4_000, 0)]);
    assert_eq!(measure_segments(&points, &survey), 4_321);
}

#[test]
fn common_distance_stops_at_the_largest_distance() {
    let points = points_owned_by("aaa");
    let survey = survey_with(3, u64::MAX, &[]);
    assert_eq!(measure_segments(&points, &survey), u64::MAX);
}

#[test]
fn turn_pass_keeps_both_ends_and_points_inside_one_trace() {
    let points = points_owned_by("aaaa");
    let survey = survey_with(4, 0, &[]);
    assert_eq!(filter_turns(&points, &survey), vec![0, 1, 2, 3]);
    assert_eq!(filter_turns(&points[..1], &survey), vec![0]);
    assert!(filter_turns(&points[..0], &survey).is_empty());
}

#[test]
fn turn_pass_replaces_a_flicker_by_its_successor() {
    let points = points_owned_by("abaa");
    let survey = survey_with(4, 5_000_000, &[(0, 2, 249_999, 0)]);
    assert_eq!(filter_turns(&points, &survey), vec![0, 2, 3]);
}

#[test]
fn turn_pass_takes_a_hop_of_the_threshold_for_no_flicker() {
    let points = points_owned_by("abaa");
    // From point 1 the bearings to its neighbours are both north: no turn, so it goes.
    let survey = survey_with(4, 5_000_000, &[(0, 2, 250_000, 0)]);
    assert_eq!(filter_turns(&points, &survey), vec![0, 3]);
}

#[test]
fn turn_pass_keeps_a_point_at_the_turn_threshold() {
    let points = points_owned_by("abaa");
    let survey = survey_with(4, 5_000_000, &[(1, 2, 5_000_000, 50_000_000)]);
    assert_eq!(filter_turns(&points, &survey), vec![0, 1, 3]);
    let survey = survey_with(4, 5_000_000, &[(1, 2, 5_000_000, 49_999_999)]);
    assert_eq!(filter_turns(&points, &survey), vec![0, 3]);
}

#[test]
fn turn_pass_flicker_may_reach_the_last_point() {
    let points = points_owned_by("aba");
    let survey = survey_with(3, 5_000_000, &[(0, 2, 10, 0)]);
    assert_eq!(filter_turns(&points, &survey), vec![0, 2]);
}

#[test]
fn window_pass_keeps_short_lists_whole() {
    let points = points_owned_by("ababa");
    let survey = survey_with(5, 0, &[]);
    assert_eq!(consolidate_windows(&points, &survey, &vec![0, 1, 2, 3, 4]), vec![0, 1, 2, 3, 4]);
    assert_eq!(consolidate_windows(&points, &survey, &vec![1, 3]), vec![1, 3]);
    assert!(consolidate_windows(&points, &survey, &Vec::new()).is_empty());
}

#[test]
fn window_pass_keeps_the_first_point_of_a_long_window() {
    let points = points_owned_by("abaaba");
    let survey = survey_with(6, 0, &[(1, 5, 100_001, 0)]);
    assert_eq!(consolidate_windows(&points, &survey, &vec![0, 1, 2, 3, 4, 5]), vec![0, 1, 5]);
}

#[test]
fn window_pass_keeps_the_majority_of_a_short_window() {
    let points = points_owned_by("abaaba");
    let survey = survey_with(6, 0, &[(1, 5, 100_000, 0)]);
    assert_eq!(consolidate_windows(&points, &survey, &vec![0, 1, 2, 3, 4, 5]), vec![0, 2, 3, 5]);
}

#[test]
fn window_pass_slides_over_longer_lists() {
    // Windows start at 0, 1 and 2. The first keeps the start. The second is long and
    // keeps its first point. The third is short: its majority, owner b, stays, and so
    // does the end of the list.
    let points = points_owned_by("aabbabb");
    let survey = survey_with(7, 0, &[(1, 5, 200_000, 0), (2, 6, 50_000, 0)]);
    assert_eq!(
        consolidate_windows(&points, &survey, &vec![0, 1, 2, 3, 4, 5, 6]),
        vec![0, 1, 2, 3, 5, 6]
    );
}

#[test]
fn window_pass_reads_points_through_the_list() {
    // The list names points 0, 2, 3, 5, 6, 7: the only window after the first spans from
    // point 2 to point 7.
    let points = points_owned_by("abbaabab");
    let survey = survey_with(8, 0, &[(2, 7, 100_001, 0)]);
    assert_eq!(consolidate_windows(&points, &survey, &vec![0, 2, 3, 5, 6, 7]), vec![0, 2, 7]);
    // Short window over the points 2, 3, 5, 6, 7 with the owners b, a, b, a, b.
    let survey = survey_with(8, 0, &[]);
    assert_eq!(consolidate_windows(&points, &survey, &vec![0, 2, 3, 5, 6, 7]), vec![0, 2, 5, 7]);
}

#[test]
fn bearing_pass_keeps_both_ends() {
    let survey = survey_with(4, 0, &[]);
    assert!(filter_bearings(&survey, &Vec::new()).is_empty());
    assert_eq!(filter_bearings(&survey, &vec![2]), vec![2]);
    assert_eq!(filter_bearings(&survey, &vec![1, 3]), vec![1, 3]);
    // No bearing differs from another: nothing between the ends stays.
    assert_eq!(filter_bearings(&survey, &vec![0, 1, 2, 3]), vec![0, 3]);
}

#[test]
fn bearing_pass_compares_against_the_point_kept_last() {
    // Point 1 is no turn and goes, so point 2 is held against point 0.
    let survey = survey_with(
        4,
        0,
        &[(1, 0, 0, 0), (1, 2, 0, 10_000_000), (2, 0, 0, 0), (2, 1, 0, 180_000_000), (2, 3, 0, 20_000_000)],
    );
    assert_eq!(filter_bearings(&survey, &vec![0, 1, 2, 3]), vec![0, 3]);
    // Now point 1 is a turn and stays, so point 2 is held against point 1.
    let survey = survey_with(
        4,
        0,
        &[(1, 0, 0, 0), (1, 2, 0, 90_000_000), (2, 0, 0, 0), (2, 1, 0, 180_000_000), (2, 3, 0, 20_000_000)],
    );
    assert_eq!(filter_bearings(&survey, &vec![0, 1, 2, 3]), vec![0, 1, 2, 3]);
}

#[test]
fn bearing_pass_keeps_a_point_at_the_turn_threshold() {
    let survey = survey_with(3, 0, &[(1, 2, 0, 50_000_000)]);
    assert_eq!(filter_bearings(&survey, &vec![0, 1, 2]), vec![0, 1, 2]);
    let survey = survey_with(3, 0, &[(1, 2, 0, 49_999_999)]);
    assert_eq!(filter_bearings(&survey, &vec![0, 1, 2]), vec![0, 2]);
}

#[test]
fn common_route_bounds_the_window_at_the_drop_off() {
    // The passenger (b) stops first; its last close point is point 3.
    let points = points_owned_by("ababba");
    let survey = survey_with(
        6,
        5_000_000,
        &[
            (3, 2, 10, 0),
            (0, 1, 1, 0),
            (1, 2, 20, 0),
            (2, 3, 300, 0),
            (3, 4, 4_000, 0),
            (1, 0, 0, 0),
            (1, 2, 20, 180_000_000),
            (2, 1, 20, 0),
            (2, 3, 300, 180_000_000),
        ],
    );
    let route = common_route(&points, &survey).unwrap();
    assert_eq!(route.drop_off, 3);
    // The window is a, b, a, b: one stretch of alternation, 1 + 20 + 300 long.
    assert_eq!(route.distance, 321);
    assert_eq!(route.kept, vec![0, 1, 2, 3]);
}

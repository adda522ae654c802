//! Sorting one trace and merging two.

use gps_trajectory_validation::order::{goes_before, merged_points, sorted_points};
use gps_trajectory_validation::point::PointWithId;

fn at(id: &str, trace: &str, timestamp: i64) -> PointWithId {
    PointWithId { id: id.to_string(), x: 0, y: 0, trace_id: trace.to_string(), timestamp }
}

fn names(points: &[PointWithId]) -> Vec<&str> {
    points.iter().map(|p| p.id.as_str()).collect()
}

#[test]
fn sorting_orders_by_time_and_keeps_ties_in_place() {
    let points = vec![
        at("c", "t", 30),
        at("a1", "t", 10),
        at("b", "t", 20),
        at("a2", "t", 10),
        at("z", "t", -5),
        at("a3", "t", 10),
    ];
    let sorted = sorted_points(&points);
    assert_eq!(names(&sorted), vec!["z", "a1", "a2", "a3", "b", "c"]);
}

#[test]
fn sorting_leaves_sorted_points_alone() {
    let points = vec![at("a", "t", 1), at("b", "t", 1), at("c", "t", 2)];
    assert_eq!(names(&sorted_points(&points)), vec!["a", "b", "c"]);
    assert!(sorted_points(&Vec::new()).is_empty());
}

#[test]
fn sorting_keeps_every_field_of_every_point() {
    let points = vec![
        PointWithId { id: "late".into(), x: 7, y: 8, trace_id: "t".into(), timestamp: i64::MAX },
        PointWithId { id: "early".into(), x: 9, y: 10, trace_id: "u".into(), timestamp: i64::MIN },
    ];
    let sorted = sorted_points(&points);
    assert_eq!(sorted[0].id, "early");
    assert_eq!((sorted[0].x, sorted[0].y), (9, 10));
    assert_eq!(sorted[0].trace_id, "u");
    assert_eq!(sorted[0].timestamp, i64::MIN);
    assert_eq!(sorted[1].id, "late");
    assert_eq!((sorted[1].x, sorted[1].y), (7, 8));
}

#[test]
fn merging_interleaves_by_time_with_the_smaller_owner_ahead_on_ties() {
    let first = vec![at("a", "1", 10), at("b", "1", 20), at("c", "1", 40)];
    let second = vec![at("x", "2", 5), at("y", "2", 20), at("z", "2", 30)];
    assert_eq!(names(&merged_points(&first, &second)), vec!["x", "a", "b", "y", "z", "c"]);
    assert_eq!(names(&merged_points(&second, &first)), vec!["x", "a", "b", "y", "z", "c"]);
}

#[test]
fn merging_points_of_one_owner_puts_the_first_sequence_ahead_on_ties() {
    let first = vec![at("a", "t", 10), at("b", "t", 20)];
    let second = vec![at("x", "t", 10), at("y", "t", 20)];
    assert_eq!(names(&merged_points(&first, &second)), vec!["a", "x", "b", "y"]);
    assert_eq!(names(&merged_points(&second, &first)), vec!["x", "a", "y", "b"]);
}

#[test]
fn owner_labels_are_compared_byte_by_byte() {
    let tie = |one: &str, other: &str| {
        let first = vec![at("one", one, 7)];
        let second = vec![at("other", other, 7)];
        let merged = merged_points(&first, &second);
        let swapped = merged_points(&second, &first);
        assert_eq!(names(&merged), names(&swapped));
        names(&merged)[0].to_string()
    };
    assert_eq!(tie("trace_1", "trace_2"), "one");
    assert_eq!(tie("trace_2", "trace_1"), "other");
    assert_eq!(tie("a", "ab"), "one");
    assert_eq!(tie("ab", "a"), "other");
    assert_eq!(tie("", "a"), "one");
    assert_eq!(tie("Z", "a"), "one");
    assert_eq!(tie("10", "9"), "one");
    assert_eq!(tie("z", "é"), "one");
    assert_eq!(tie("é", "z"), "other");
}

#[test]
fn a_point_goes_before_a_later_one_whatever_the_owners() {
    assert!(goes_before(&at("a", "z", 1), &at("b", "a", 2)));
    assert!(!goes_before(&at("b", "a", 2), &at("a", "z", 1)));
    assert!(goes_before(&at("a", "a", 1), &at("b", "b", 1)));
    assert!(!goes_before(&at("b", "b", 1), &at("a", "a", 1)));
    assert!(!goes_before(&at("a", "t", 1), &at("b", "t", 1)));
    assert!(!goes_before(&at("b", "t", 1), &at("a", "t", 1)));
}

#[test]
fn merging_with_nothing_changes_nothing() {
    let first = vec![at("a", "1", 10), at("b", "1", 20)];
    assert_eq!(names(&merged_points(&first, &Vec::new())), vec!["a", "b"]);
    assert_eq!(names(&merged_points(&Vec::new(), &first)), vec!["a", "b"]);
    assert!(merged_points(&Vec::new(), &Vec::new()).is_empty());
}

#[test]
fn merging_without_shared_instants_does_not_depend_on_the_order() {
    let first = vec![at("a", "1", 1), at("b", "1", 4), at("c", "1", 9)];
    let second = vec![at("x", "2", 2), at("y", "2", 3), at("z", "2", 10)];
    let one = merged_points(&first, &second);
    let other = merged_points(&second, &first);
    assert_eq!(names(&one), vec!["a", "x", "y", "b", "c", "z"]);
    assert_eq!(names(&one), names(&other));
}

//! Cleaning a trace and giving simplified vertices their identity back.

use gps_trajectory_validation::input::{PointInput, TraceInput};
use gps_trajectory_validation::output::TraceOutput;
use gps_trajectory_validation::point::PointWithId;
use gps_trajectory_validation::trace::{NotSimplified, Simplified, Trace};

fn placed(id: &str, x: f64, y: f64, timestamp: i64) -> PointWithId {
    PointWithId {
        id: id.to_string(),
        x: x.to_bits(),
        y: y.to_bits(),
        trace_id: "from input".to_string(),
        timestamp,
    }
}

fn vertex(x: f64, y: f64) -> (u64, u64) {
    (x.to_bits(), y.to_bits())
}

fn names<T>(trace: &Trace<T>) -> Vec<&str> {
    trace.points.iter().map(|p| p.id.as_str()).collect()
}

fn square() -> Trace<NotSimplified> {
    Trace::new(
        "square".to_string(),
        vec![
            placed("a", 0.0, 0.0, 1),
            placed("b", 1.0, 0.0, 2),
            placed("c", 1.0, 1.0, 3),
            placed("d", 0.0, 1.0, 4),
            placed("e", 0.0, 0.0, 5),
        ],
    )
}

#[test]
fn new_trace_is_sorted_by_time() {
    let trace = Trace::new(
        "t".to_string(),
        vec![placed("late", 0.0, 0.0, 9), placed("early", 1.0, 1.0, 3), placed("mid", 2.0, 2.0, 5)],
    );
    assert_eq!(trace.id, "t");
    assert_eq!(names(&trace), vec!["early", "mid", "late"]);
}

#[test]
fn trace_from_input_takes_identity_place_time_and_owner() {
    let input = TraceInput {
        id: "trace".to_string(),
        user_id: Some("user".to_string()),
        points: vec![
            PointInput {
                id: "second".to_string(),
                latitude: 48.5f64.to_bits(),
                longitude: 2.5f64.to_bits(),
                timestamp: 20,
                gps_trace_id: "trace".to_string(),
            },
            PointInput {
                id: "first".to_string(),
                latitude: 48.0f64.to_bits(),
                longitude: 2.0f64.to_bits(),
                timestamp: 10,
                gps_trace_id: "trace".to_string(),
            },
        ],
    };
    let trace = Trace::from(&input);
    assert_eq!(trace.id, "trace");
    assert_eq!(names(&trace), vec!["first", "second"]);
    assert_eq!(f64::from_bits(trace.points[0].x), 2.0);
    assert_eq!(f64::from_bits(trace.points[0].y), 48.0);
    assert_eq!(trace.points[0].timestamp, 10);
    assert_eq!(trace.points[0].trace_id, "trace");
    assert_eq!(PointWithId::from(&input.points[0]).id, "second");
}

#[test]
fn simplified_points_keep_the_identity_of_their_coordinates() {
    let trace = square();
    let simplified = trace.simplified(&vec![vertex(1.0, 0.0), vertex(0.0, 1.0)]);
    assert_eq!(simplified.id, "square");
    assert_eq!(names(&simplified), vec!["b", "d"]);
    assert_eq!(simplified.points[0].timestamp, 2);
    assert_eq!(simplified.points[0].trace_id, "square");
    assert_eq!(f64::from_bits(simplified.points[1].x), 0.0);
    assert_eq!(f64::from_bits(simplified.points[1].y), 1.0);
}

#[test]
fn simplified_point_ids_are_a_subset_of_the_ids_of_the_trace() {
    let trace = square();
    let line = vec![vertex(0.0, 0.0), vertex(5.0, 5.0), vertex(1.0, 1.0), vertex(0.0, 0.0)];
    let simplified = trace.simplified(&line);
    assert!(simplified.points.len() <= line.len());
    for point in simplified.points.iter() {
        assert!(trace.points.iter().any(|p| p.id == point.id
            && p.x == point.x
            && p.y == point.y
            && p.timestamp == point.timestamp));
    }
}

#[test]
fn of_two_points_in_one_place_the_later_gives_its_identity() {
    let trace = square();
    let simplified = trace.simplified(&vec![vertex(0.0, 0.0), vertex(1.0, 1.0), vertex(0.0, 0.0)]);
    assert_eq!(names(&simplified), vec!["e", "c", "e"]);
}

#[test]
fn a_vertex_that_matches_no_point_is_left_out() {
    let trace = square();
    let simplified =
        trace.simplified(&vec![vertex(0.5, 0.5), vertex(1.0, 0.0), vertex(-0.0, 0.0)]);
    // Negative zero is another bit pattern than zero.
    assert_eq!(names(&simplified), vec!["b"]);
    assert!(trace.simplified(&Vec::new()).points.is_empty());
}

#[test]
fn from_linestring_is_what_simplified_does() {
    let trace = square();
    let line = vec![vertex(1.0, 1.0), vertex(0.0, 1.0)];
    let plain: Trace<NotSimplified> = trace.from_linestring(&line);
    let simplified: Trace<Simplified> = trace.from_linestring(&line);
    assert_eq!(names(&plain), vec!["c", "d"]);
    assert_eq!(names(&simplified), names(&trace.simplified(&line)));
}

#[test]
fn repeated_points_are_dropped() {
    let trace = Trace::new(
        "t".to_string(),
        vec![
            placed("a", 0.0, 0.0, 1),
            placed("b", 0.0, 0.0, 2),
            placed("c", 0.0, 0.0, 3),
            placed("d", 1.0, 0.0, 4),
            placed("e", 0.0, 0.0, 5),
            placed("f", 0.0, 0.0, 6),
        ],
    );
    let clean = trace.without_repeated_points();
    assert_eq!(clean.id, "t");
    assert_eq!(names(&clean), vec!["a", "d", "e"]);
}

#[test]
fn points_that_differ_in_one_coordinate_are_not_repeated() {
    let trace = Trace::new(
        "t".to_string(),
        vec![placed("a", 0.0, 0.0, 1), placed("b", 0.0, 1.0, 2), placed("c", 1.0, 1.0, 3)],
    );
    assert_eq!(names(&trace.without_repeated_points()), vec!["a", "b", "c"]);
}

#[test]
fn outliers_are_dropped_above_the_threshold_only() {
    let trace = square();
    let clean = trace.without_outliers(&vec![0, 1_000, 1_001, 999, 5_000]);
    assert_eq!(names(&clean), vec!["a", "b", "d"]);
}

#[test]
fn points_without_a_score_stay() {
    let trace = square();
    assert_eq!(names(&trace.without_outliers(&vec![2_000])), vec!["b", "c", "d", "e"]);
    assert_eq!(names(&trace.without_outliers(&Vec::new())), vec!["a", "b", "c", "d", "e"]);
}

#[test]
fn cleaning_drops_outliers_first_and_repeated_points_then() {
    let trace = Trace::new(
        "t".to_string(),
        vec![
            placed("a", 0.0, 0.0, 1),
            placed("spike", 9.0, 9.0, 2),
            placed("b", 0.0, 0.0, 3),
            placed("c", 1.0, 0.0, 4),
        ],
    );
    assert_eq!(names(&trace.cleaned(&vec![0, 3_000, 0, 0])), vec!["a", "c"]);
    assert_eq!(names(&trace.cleaned(&vec![0, 0, 0, 0])), vec!["a", "spike", "b", "c"]);
}

#[test]
fn trace_output_lists_the_ids_in_order() {
    let simplified = square().simplified(&vec![vertex(1.0, 1.0), vertex(1.0, 0.0)]);
    let out = TraceOutput::from(simplified);
    assert_eq!(out.id, "square");
    assert_eq!(out.points, vec!["c", "b"]);
}

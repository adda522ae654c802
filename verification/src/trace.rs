//! The fixes of one user, in order of time, and what two traces have in common.

use crate::error::{JourneyValidationError, Rejection};
use crate::input::{PointInput, TraceInput};
use crate::measure::{confidence, confidence_spec, is_outlier, is_outlier_spec, Survey};
use crate::order::{
    different_owners, lemma_merge_by_time, lemma_merge_commutes, lemma_sort_by_time,
    lemma_sort_of_sorted, lemma_sorted_told_apart, merge_by_time, merged_points, sort_by_time, sorted_by_time,
    sorted_points, told_apart,
};
use crate::output::{PointOutput, TraceOutput};
use crate::point::{ids, owners, point_of, PointWithId};
use crate::route::{
    all_below, common_length, common_route, drop_off, lemma_ascending_is_short,
    lemma_drop_off, lemma_representatives, positions, representatives, window_to,
};
use std::marker::PhantomData;
use vstd::prelude::*;

verus! {

/// Marks a trace that went through simplification.
#[derive(Clone, Copy, Debug)]
pub struct Simplified;

/// Marks a trace that did not go through simplification.
#[derive(Clone, Copy, Debug)]
pub struct NotSimplified;

/// The fixes of one user. The marker `T` tells whether the trace has been simplified, so
/// that what needs a simplified trace cannot be handed another one.
#[derive(Debug)]
pub struct Trace<T = NotSimplified> {
    pub id: String,
    pub points: Vec<PointWithId>,
    pub status: PhantomData<T>,
}

/// What two traces have in common. `common_distance` is in millimetres.
#[derive(Clone, Debug)]
pub struct CommonTrace {
    pub common_distance: u64,
    pub common_start_point: PointOutput,
    pub common_end_point: PointOutput,
    pub common_points: Vec<PointOutput>,
}

/// The mathematical content of a [`CommonTrace`].
pub struct CommonGround {
    pub distance: int,
    pub start: PointOutput,
    pub end: PointOutput,
    pub points: Seq<PointOutput>,
}

impl View for CommonTrace {
    type V = CommonGround;

    open spec fn view(&self) -> CommonGround {
        CommonGround {
            distance: self.common_distance as int,
            start: self.common_start_point,
            end: self.common_end_point,
            points: self.common_points@,
        }
    }
}

/// The fixes that submitted points stand for, in order.
pub open spec fn points_of(inputs: Seq<PointInput>) -> Seq<PointWithId> {
    Seq::new(inputs.len(), |i: int| point_of(inputs[i]))
}

/// What the verdict shows of the points at the given places of `merged`.
pub open spec fn outputs_at(merged: Seq<PointWithId>, places: Seq<int>) -> Seq<PointOutput> {
    Seq::new(places.len(), |t: int| PointOutput::of(merged[places[t]]))
}

/// The points of two traces merged by time: each trace is put in ascending order of time,
/// and the two are interleaved. Of two points of one instant, the one whose owner has the
/// smaller label comes first.
pub open spec fn merged_by_time(first: Seq<PointWithId>, second: Seq<PointWithId>) -> Seq<PointWithId> {
    merge_by_time(sort_by_time(first), sort_by_time(second))
}

/// What the points of two traces have in common under a survey of their merged points,
/// if anything.
///
/// The window runs from the first merged point to the drop-off. The distance is the
/// summed length of the segments of the window, and the points are those that the three
/// filter passes leave of it.
pub open spec fn common_ground(
    first: Seq<PointWithId>,
    second: Seq<PointWithId>,
    survey: Survey,
) -> Option<CommonGround> {
    let merged = merged_by_time(first, second);
    let labels = owners(merged);
    match drop_off(labels, survey) {
        None => None,
        Some(at) => Some(
            CommonGround {
                distance: common_length(window_to(labels, at), survey),
                start: PointOutput::of(merged[0]),
                end: PointOutput::of(merged[at]),
                points: outputs_at(merged, representatives(window_to(labels, at), survey)),
            },
        ),
    }
}

/// The two traces may change roles: where no point of the one shares both its instant
/// and its owner with a point of the other, what the first has in common with the second
/// is what the second has in common with the first, distance, ends and points alike.
pub proof fn lemma_common_ground_symmetric(
    first: Seq<PointWithId>,
    second: Seq<PointWithId>,
    survey: Survey,
)
    requires
        told_apart(first, second),
    ensures
        merged_by_time(first, second) == merged_by_time(second, first),
        common_ground(first, second, survey) == common_ground(second, first, survey),
{
    lemma_sorted_told_apart(first, second);
    lemma_merge_commutes(sort_by_time(first), sort_by_time(second));
}

/// The traces of two different owners may change roles: what the one has in common with
/// the other does not depend on which of them is named first.
pub proof fn lemma_roles_may_swap(
    one: Trace<NotSimplified>,
    other: Trace<NotSimplified>,
    survey: Survey,
)
    requires
        one.id@ != other.id@,
        forall|i: int| 0 <= i < one.points@.len() ==> one.points@[i].trace_id@ == one.id@,
        forall|j: int| 0 <= j < other.points@.len() ==> other.points@[j].trace_id@ == other.id@,
    ensures
        different_owners(one.points@, other.points@),
        common_ground(one.points@, other.points@, survey) == common_ground(
            other.points@,
            one.points@,
            survey,
        ),
{
    lemma_common_ground_symmetric(one.points@, other.points@, survey);
}

/// What two traces have in common lies within their merged points, which are in
/// ascending order of time: the route starts with the first of them, the earliest point
/// of all, ends with the drop-off, holds no more points than the window, and runs
/// forward in time.
pub proof fn lemma_common_ground(
    first: Seq<PointWithId>,
    second: Seq<PointWithId>,
    survey: Survey,
)
    ensures
        sorted_by_time(merged_by_time(first, second)),
        merged_by_time(first, second).len() == first.len() + second.len(),
        merged_by_time(first, second).to_multiset() == first.to_multiset().add(second.to_multiset()),
        common_ground(first, second, survey) matches Some(ground) ==> {
            let merged = merged_by_time(first, second);
            &&& 0 < ground.points.len() <= merged.len()
            &&& ground.points[0] == ground.start
            &&& ground.points.last() == ground.end
            &&& forall|t: int|
                0 <= t < ground.points.len() ==> exists|k: int|
                    0 <= k < merged.len() && #[trigger] ground.points[t] == PointOutput::of(
                        merged[k],
                    )
            &&& forall|s: int, t: int|
                0 <= s <= t < ground.points.len() ==> ground.points[s].timestamp
                    <= ground.points[t].timestamp
        },
{
    let merged = merged_by_time(first, second);
    let labels = owners(merged);
    lemma_sort_by_time(first);
    lemma_sort_by_time(second);
    lemma_merge_by_time(sort_by_time(first), sort_by_time(second));
    if let Some(at) = drop_off(labels, survey) {
        let ground = common_ground(first, second, survey).unwrap();
        let places = representatives(window_to(labels, at), survey);
        lemma_drop_off(labels, survey);
        lemma_representatives(window_to(labels, at), survey);
        lemma_ascending_is_short(places, at + 1);
        assert forall|t: int| 0 <= t < ground.points.len() implies exists|k: int|
            0 <= k < merged.len() && #[trigger] ground.points[t] == PointOutput::of(
                merged[k],
            ) by {
            let k = places[t];
            assert(0 <= k < merged.len() && ground.points[t] == PointOutput::of(merged[k]));
        }
        assert forall|s: int, t: int| 0 <= s <= t < ground.points.len() implies ground.points[s].timestamp
            <= ground.points[t].timestamp by {
            if s < t {
                assert(places[s] < places[t]);
            }
            assert(merged[places[s]].timestamp <= merged[places[t]].timestamp);
        }
    }
}

/// The last of the first `upto` points that has exactly the coordinates `x` and `y`.
pub open spec fn found_at(points: Seq<PointWithId>, x: u64, y: u64, upto: int) -> Option<int>
    decreases upto,
{
    if upto <= 0 {
        None
    } else if points[upto - 1].x == x && points[upto - 1].y == y {
        Some(upto - 1)
    } else {
        found_at(points, x, y, upto - 1)
    }
}

/// The point `origin` as a point of the trace `trace_id`.
pub open spec fn restored(trace_id: String, origin: PointWithId) -> PointWithId {
    PointWithId {
        id: origin.id,
        x: origin.x,
        y: origin.y,
        trace_id,
        timestamp: origin.timestamp,
    }
}

/// The first `upto` vertices of `line`, each as the last point of `points` with exactly
/// its coordinates. A vertex that no point has the coordinates of is left out.
pub open spec fn rehydrated(
    trace_id: String,
    points: Seq<PointWithId>,
    line: Seq<(u64, u64)>,
    upto: int,
) -> Seq<PointWithId>
    decreases upto,
{
    if upto <= 0 {
        Seq::empty()
    } else {
        let before = rehydrated(trace_id, points, line, upto - 1);
        match found_at(points, line[upto - 1].0, line[upto - 1].1, points.len() as int) {
            Some(at) => before.push(restored(trace_id, points[at])),
            None => before,
        }
    }
}

/// Every identifier of `some` is an identifier of `all`.
pub open spec fn ids_within(some: Seq<PointWithId>, all: Seq<PointWithId>) -> bool {
    forall|t: int| 0 <= t < some.len() ==> ids(all).contains(#[trigger] ids(some)[t])
}

/// Whether `point` has the identity, the place and the time of one of `points`.
pub open spec fn stems_from(points: Seq<PointWithId>, point: PointWithId) -> bool {
    exists|k: int|
        0 <= k < points.len() && (#[trigger] points[k]).id == point.id && points[k].x == point.x
            && points[k].y == point.y && points[k].timestamp == point.timestamp
}

/// The points at those of the first `upto` places that `keep` holds of, in order.
pub open spec fn selected(points: Seq<PointWithId>, keep: spec_fn(int) -> bool, upto: int) -> Seq<
    PointWithId,
>
    decreases upto,
{
    if upto <= 0 {
        Seq::empty()
    } else if keep(upto - 1) {
        selected(points, keep, upto - 1).push(points[upto - 1])
    } else {
        selected(points, keep, upto - 1)
    }
}

/// Whether the point at place `k` lies exactly where its predecessor lies.
pub open spec fn is_repeat(points: Seq<PointWithId>, k: int) -> bool {
    k > 0 && points[k].x == points[k - 1].x && points[k].y == points[k - 1].y
}

/// Whether the point at place `k` has an outlier score, and one that is too high.
pub open spec fn is_noise(scores: Seq<u64>, k: int) -> bool {
    0 <= k < scores.len() && is_outlier_spec(scores[k])
}

/// The points without those that lie exactly where their predecessor lies.
pub open spec fn without_repeats(points: Seq<PointWithId>) -> Seq<PointWithId> {
    selected(points, |k: int| !is_repeat(points, k), points.len() as int)
}

/// The points without those whose outlier score is too high. A point that has no score
/// stays.
pub open spec fn without_noise(points: Seq<PointWithId>, scores: Seq<u64>) -> Seq<PointWithId> {
    selected(points, |k: int| !is_noise(scores, k), points.len() as int)
}

/// Whether `point` is one of the first `upto` points.
pub open spec fn among(points: Seq<PointWithId>, upto: int, point: PointWithId) -> bool {
    exists|k: int| 0 <= k < upto && points[k] == point
}

/// A selection holds points of the sequence it is taken from, no more of them than there
/// are, and in ascending order of time where the sequence is.
pub proof fn lemma_selected(points: Seq<PointWithId>, keep: spec_fn(int) -> bool, upto: int)
    requires
        0 <= upto <= points.len(),
    ensures
        selected(points, keep, upto).len() <= upto,
        forall|t: int|
            0 <= t < selected(points, keep, upto).len() ==> among(
                points,
                upto,
                #[trigger] selected(points, keep, upto)[t],
            ),
        sorted_by_time(points) ==> sorted_by_time(selected(points, keep, upto)),
    decreases upto,
{
    if upto > 0 {
        lemma_selected(points, keep, upto - 1);
        let inner = selected(points, keep, upto - 1);
        let out = selected(points, keep, upto);
        assert forall|t: int| 0 <= t < out.len() implies among(points, upto, #[trigger] out[t]) by {
            if t < inner.len() {
                assert(among(points, upto - 1, inner[t]));
                let k = choose|k: int| 0 <= k < upto - 1 && points[k] == inner[t];
                assert(0 <= k < upto && points[k] == out[t]);
            } else {
                assert(points[upto - 1] == out[t]);
            }
        }
        if sorted_by_time(points) {
            assert forall|a: int, b: int| 0 <= a <= b < out.len() implies out[a].timestamp
                <= out[b].timestamp by {
                if b == inner.len() && a < b {
                    assert(among(points, upto - 1, inner[a]));
                    let k = choose|k: int| 0 <= k < upto - 1 && points[k] == inner[a];
                    assert(points[k].timestamp <= points[upto - 1].timestamp);
                }
            }
        }
    }
}

/// A found place is a place of a point with exactly those coordinates.
pub proof fn lemma_found_at(points: Seq<PointWithId>, x: u64, y: u64, upto: int)
    requires
        upto <= points.len(),
    ensures
        match found_at(points, x, y, upto) {
            Some(at) => 0 <= at < upto && points[at].x == x && points[at].y == y && forall|k: int|
                at < k < upto ==> !(points[k].x == x && points[k].y == y),
            None => forall|k: int| 0 <= k < upto ==> !(points[k].x == x && points[k].y == y),
        },
    decreases upto,
{
    if upto > 0 {
        lemma_found_at(points, x, y, upto - 1);
    }
}

/// Every rehydrated point is a point of the trace under the name of the trace: no
/// identity is made up, and no more points come out than vertices went in.
pub proof fn lemma_rehydrated(
    trace_id: String,
    points: Seq<PointWithId>,
    line: Seq<(u64, u64)>,
    upto: int,
)
    requires
        upto <= line.len(),
    ensures
        rehydrated(trace_id, points, line, upto).len() <= if upto < 0 {
            0
        } else {
            upto
        },
        forall|t: int|
            0 <= t < rehydrated(trace_id, points, line, upto).len() ==> {
                let point = #[trigger] rehydrated(trace_id, points, line, upto)[t];
                stems_from(points, point) && point.trace_id == trace_id
            },
        ids_within(rehydrated(trace_id, points, line, upto), points),
    decreases upto,
{
    if upto > 0 {
        lemma_rehydrated(trace_id, points, line, upto - 1);
        lemma_found_at(points, line[upto - 1].0, line[upto - 1].1, points.len() as int);
        let before = rehydrated(trace_id, points, line, upto - 1);
        let out = rehydrated(trace_id, points, line, upto);
        assert forall|t: int| 0 <= t < out.len() implies {
            let point = #[trigger] out[t];
            stems_from(points, point) && point.trace_id == trace_id
        } by {
            if t < before.len() {
                assert(out[t] == before[t]);
            } else {
                let at = found_at(
                    points,
                    line[upto - 1].0,
                    line[upto - 1].1,
                    points.len() as int,
                ).unwrap();
                assert(points[at].id == out[t].id);
            }
        }
        assert forall|t: int| 0 <= t < out.len() implies ids(points).contains(
            #[trigger] ids(out)[t],
        ) by {
            assert(stems_from(points, out[t]));
            let k = choose|k: int|
                0 <= k < points.len() && (#[trigger] points[k]).id == out[t].id && points[k].x
                    == out[t].x && points[k].y == out[t].y && points[k].timestamp
                    == out[t].timestamp;
            assert(ids(points)[k] == ids(out)[t]);
        }
    }
}

impl<T> Trace<T> {
    /// The points are in ascending order of time.
    pub open spec fn is_sorted(&self) -> bool {
        sorted_by_time(self.points@)
    }

    /// The first and the last point.
    pub fn get_edges(&self) -> (edges: (&PointWithId, &PointWithId))
        requires
            self.points@.len() > 0,
        ensures
            *edges.0 == self.points@[0],
            *edges.1 == self.points@.last(),
    {
        (&self.points[0], &self.points[self.points.len() - 1])
    }
}

impl Trace<NotSimplified> {
    /// The trace `id` with the given points, put in ascending order of time. Points of
    /// one instant keep their order.
    pub fn new(id: String, points: Vec<PointWithId>) -> (trace: Trace<NotSimplified>)
        ensures
            trace.id == id,
            trace.points@ == sort_by_time(points@),
            trace.is_sorted(),
            trace.points@.len() == points@.len(),
            trace.points@.to_multiset() == points@.to_multiset(),
    {
        let sorted = sorted_points(&points);
        Trace { id, points: sorted, status: PhantomData }
    }

    /// The trace that a submitted trace stands for.
    pub fn from(value: &TraceInput) -> (trace: Trace<NotSimplified>)
        ensures
            trace.id == value.id,
            trace.points@ == sort_by_time(points_of(value.points@)),
            trace.is_sorted(),
            trace.points@.len() == value.points@.len(),
    {
        let mut points: Vec<PointWithId> = Vec::new();
        let mut i: usize = 0;
        while i < value.points.len()
            invariant
                i <= value.points@.len(),
                points@ == points_of(value.points@.take(i as int)),
            decreases value.points.len() - i,
        {
            points.push(PointWithId::from(&value.points[i]));
            proof {
                assert(points@ =~= points_of(value.points@.take(i + 1)));
            }
            i += 1;
        }
        proof {
            assert(value.points@.take(i as int) =~= value.points@);
        }
        Trace::new(value.id.clone(), points)
    }

    /// The trace made of the vertices of `linestring`, each a pair of the bit patterns of
    /// longitude and latitude, with the identity and the time of the last point of this
    /// trace that has exactly those coordinates. A vertex that matches no point is left
    /// out.
    pub fn from_linestring<U>(&self, linestring: &Vec<(u64, u64)>) -> (trace: Trace<U>)
        ensures
            trace.id == self.id,
            trace.points@ == rehydrated(
                self.id,
                self.points@,
                linestring@,
                linestring@.len() as int,
            ),
            trace.points@.len() <= linestring@.len(),
            ids_within(trace.points@, self.points@),
            forall|t: int|
                0 <= t < trace.points@.len() ==> stems_from(
                    self.points@,
                    #[trigger] trace.points@[t],
                ),
    {
        let mut points: Vec<PointWithId> = Vec::new();
        let mut i: usize = 0;
        while i < linestring.len()
            invariant
                i <= linestring@.len(),
                points@ == rehydrated(self.id, self.points@, linestring@, i as int),
            decreases linestring.len() - i,
        {
            let (x, y) = linestring[i];
            let mut k: usize = self.points.len();
            let mut found: Option<usize> = None;
            while k > 0 && found.is_none()
                invariant
                    k <= self.points@.len(),
                    match found {
                        Some(at) => at == k && at < self.points@.len() && found_at(
                            self.points@,
                            x,
                            y,
                            self.points@.len() as int,
                        ) == Some(at as int),
                        None => found_at(self.points@, x, y, self.points@.len() as int)
                            == found_at(self.points@, x, y, k as int),
                    },
                decreases k + if found.is_none() { 1int } else { 0int },
            {
                k -= 1;
                if self.points[k].x == x && self.points[k].y == y {
                    found = Some(k);
                }
            }
            match found {
                Some(at) => {
                    let origin = &self.points[at];
                    points.push(
                        PointWithId {
                            trace_id: self.id.clone(),
                            id: origin.id.clone(),
                            timestamp: origin.timestamp,
                            x: origin.x,
                            y: origin.y,
                        },
                    );
                },
                None => {},
            }
            i += 1;
        }
        proof {
            lemma_rehydrated(self.id, self.points@, linestring@, linestring@.len() as int);
        }
        Trace { id: self.id.clone(), points, status: PhantomData }
    }

    /// This trace without the points whose outlier score, in thousandths, exceeds the
    /// threshold. `scores` holds the score of each point, in the order of the points.
    pub fn without_outliers(&self, scores: &Vec<u64>) -> (trace: Trace<NotSimplified>)
        ensures
            trace.id == self.id,
            trace.points@ == without_noise(self.points@, scores@),
            trace.points@.len() <= self.points@.len(),
            self.is_sorted() ==> trace.is_sorted(),
    {
        let ghost keep = |k: int| !is_noise(scores@, k);
        let mut points: Vec<PointWithId> = Vec::new();
        let mut i: usize = 0;
        while i < self.points.len()
            invariant
                i <= self.points@.len(),
                keep == (|k: int| !is_noise(scores@, k)),
                points@ == selected(self.points@, keep, i as int),
            decreases self.points.len() - i,
        {
            let noisy: bool = i < scores.len() && is_outlier(scores[i]);
            proof {
                assert(keep(i as int) == !noisy);
            }
            if !noisy {
                points.push(self.points[i].duplicate());
            }
            i += 1;
        }
        proof {
            lemma_selected(self.points@, keep, self.points@.len() as int);
        }
        Trace { id: self.id.clone(), points, status: PhantomData }
    }

    /// This trace without the points that lie exactly where their predecessor lies.
    /// Coordinates are compared as bit patterns: zero and negative zero are two places.
    pub fn without_repeated_points(&self) -> (trace: Trace<NotSimplified>)
        ensures
            trace.id == self.id,
            trace.points@ == without_repeats(self.points@),
            trace.points@.len() <= self.points@.len(),
            self.is_sorted() ==> trace.is_sorted(),
    {
        let ghost keep = |k: int| !is_repeat(self.points@, k);
        let mut points: Vec<PointWithId> = Vec::new();
        let mut i: usize = 0;
        while i < self.points.len()
            invariant
                i <= self.points@.len(),
                keep == (|k: int| !is_repeat(self.points@, k)),
                points@ == selected(self.points@, keep, i as int),
            decreases self.points.len() - i,
        {
            let repeated: bool = i > 0 && self.points[i].same_place(&self.points[i - 1]);
            proof {
                assert(keep(i as int) == !repeated);
            }
            if !repeated {
                points.push(self.points[i].duplicate());
            }
            i += 1;
        }
        proof {
            lemma_selected(self.points@, keep, self.points@.len() as int);
        }
        Trace { id: self.id.clone(), points, status: PhantomData }
    }

    /// This trace cleaned of noise: without the points whose outlier score exceeds the
    /// threshold, and then without the points that lie exactly where their predecessor
    /// lies.
    pub fn cleaned(&self, scores: &Vec<u64>) -> (trace: Trace<NotSimplified>)
        ensures
            trace.id == self.id,
            trace.points@ == without_repeats(without_noise(self.points@, scores@)),
            trace.points@.len() <= self.points@.len(),
            self.is_sorted() ==> trace.is_sorted(),
    {
        self.without_outliers(scores).without_repeated_points()
    }

    /// The simplified trace: the vertices that simplification left of this trace, each
    /// with the identity it had before.
    pub fn simplified(&self, kept: &Vec<(u64, u64)>) -> (trace: Trace<Simplified>)
        ensures
            trace.id == self.id,
            trace.points@ == rehydrated(self.id, self.points@, kept@, kept@.len() as int),
            trace.points@.len() <= kept@.len(),
            ids_within(trace.points@, self.points@),
            forall|t: int|
                0 <= t < trace.points@.len() ==> stems_from(
                    self.points@,
                    #[trigger] trace.points@[t],
                ),
    {
        self.from_linestring(kept)
    }

    /// The points of this trace and of `other`, merged by time: each trace is put in
    /// ascending order of time, and the two are interleaved. Of two points of one instant,
    /// the one whose owner has the smaller label comes first, whichever trace it is of.
    /// The legs of a [`Survey`] are counted in this order.
    pub fn merged_with(&self, other: &Trace<NotSimplified>) -> (merged: Vec<PointWithId>)
        ensures
            merged@ == merged_by_time(self.points@, other.points@),
            merged@.len() == self.points@.len() + other.points@.len(),
            merged@.to_multiset() == self.points@.to_multiset().add(other.points@.to_multiset()),
            sorted_by_time(merged@),
            self.is_sorted() && other.is_sorted() ==> merged@ == merge_by_time(
                self.points@,
                other.points@,
            ),
    {
        let mine = sorted_points(&self.points);
        let theirs = sorted_points(&other.points);
        proof {
            if self.is_sorted() && other.is_sorted() {
                lemma_sort_of_sorted(self.points@);
                lemma_sort_of_sorted(other.points@);
            }
        }
        merged_points(&mine, &theirs)
    }

    /// What this trace and `other` have in common, the legs between their merged points
    /// being those of `survey`.
    ///
    /// The window runs from the first merged point to the drop-off. `common_distance` is
    /// the summed length of the segments of the window; `common_points` are the points
    /// that the three filter passes leave of it. Without a drop-off the traces have no
    /// point in common.
    pub fn common_trace_with(&self, other: &Trace<NotSimplified>, survey: &Survey) -> (found:
        Result<CommonTrace, JourneyValidationError>)
        ensures
            match found {
                Ok(common) => common_ground(self.points@, other.points@, *survey) == Some(
                    common@,
                ),
                Err(error) => common_ground(self.points@, other.points@, *survey).is_none()
                    && error@ == Rejection::NoCommonPoints,
            },
    {
        let merged = self.merged_with(other);
        match common_route(merged.as_slice(), survey) {
            None => Err(JourneyValidationError::NoCommonPoints),
            Some(route) => {
                let ghost places = positions(route.kept@);
                let mut common_points: Vec<PointOutput> = Vec::new();
                let mut t: usize = 0;
                while t < route.kept.len()
                    invariant
                        t <= route.kept@.len(),
                        places == positions(route.kept@),
                        all_below(places, merged@.len() as int),
                        common_points@ == outputs_at(merged@, places.take(t as int)),
                    decreases route.kept.len() - t,
                {
                    assert(0 <= places[t as int] < merged@.len());
                    common_points.push(PointOutput::from(&merged[route.kept[t]]));
                    proof {
                        assert(common_points@ =~= outputs_at(merged@, places.take(t + 1)));
                    }
                    t += 1;
                }
                proof {
                    assert(places.take(t as int) =~= places);
                }
                Ok(
                    CommonTrace {
                        common_distance: route.distance,
                        common_start_point: PointOutput::from(&merged[0]),
                        common_end_point: PointOutput::from(&merged[route.drop_off]),
                        common_points,
                    },
                )
            },
        }
    }
}

impl Trace<Simplified> {
    /// The confidence, in millionths, that this trace and `other` are one path, given the
    /// Fréchet distance between the two and the scale to hold it against, both in one
    /// unit.
    pub fn confidence_with(&self, other: &Trace<Simplified>, frechet: u64, scale: u64) -> (score:
        u32)
        ensures
            score == confidence_spec(frechet, scale),
            score <= crate::measure::FULL_CONFIDENCE,
    {
        confidence(frechet, scale)
    }
}

impl TraceOutput {
    /// What the verdict shows of a simplified trace: its identifier and the identifiers
    /// of its points, in order.
    pub fn from(value: Trace<Simplified>) -> (out: TraceOutput)
        ensures
            out.id == value.id,
            out.points@.len() == value.points@.len(),
            forall|i: int| 0 <= i < out.points@.len() ==> out.points@[i] == value.points@[i].id,
    {
        let mut points: Vec<String> = Vec::new();
        let mut i: usize = 0;
        while i < value.points.len()
            invariant
                i <= value.points@.len(),
                points@.len() == i,
                forall|k: int| 0 <= k < i ==> points@[k] == value.points@[k].id,
            decreases value.points.len() - i,
        {
            points.push(value.points[i].id.clone());
            i += 1;
        }
        TraceOutput { id: value.id, points }
    }
}

} // verus!

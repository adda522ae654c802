//! The common route of two traces.
//!
//! Everything here works on one sequence of points, the two traces merged by time, and on
//! a [`Survey`] of the legs between those points. A point is named by its position in the
//! merged sequence, and its owner is the trace it belongs to.
//!
//! The route is found in four steps. The window is bounded: it ends at the drop-off, the
//! last point of the trace that stops first which is still close to the other trace. The
//! window is cut into segments, runs of one owner and stretches of alternating owners. The
//! common distance is the sum of the lengths of all segments. Three filter passes then
//! reduce the window to the points that represent the route.

use crate::measure::{
    add_distance, Survey, MAX_BEARING, MAX_POINTS_DELTA, SHORT_HOP, WINDOW_MAJORITY, WINDOW_SIZE,
    WINDOW_SPAN,
};
use crate::point::{owners, PointWithId};
use vstd::prelude::*;
use vstd::slice::slice_subrange;

verus! {

/// Whether point `i` belongs to the trace that owns the last point of all.
pub open spec fn owned_by_last(owners: Seq<Seq<char>>, i: int) -> bool {
    owners[i] == owners.last()
}

/// Whether point `i` lies within the proximity radius of a point that the trace of the
/// last point owns.
pub open spec fn close_to_last_owner(owners: Seq<Seq<char>>, survey: Survey, i: int) -> bool {
    exists|j: int|
        0 <= j < owners.len() && owned_by_last(owners, j) && #[trigger] survey.distance_spec(i, j)
            < MAX_POINTS_DELTA
}

/// Whether point `i` could be the drop-off: it belongs to the trace that does not own the
/// last point, and lies within the proximity radius of some point of the trace that does.
pub open spec fn may_be_drop_off(owners: Seq<Seq<char>>, survey: Survey, i: int) -> bool {
    &&& 0 <= i < owners.len()
    &&& !owned_by_last(owners, i)
    &&& close_to_last_owner(owners, survey, i)
}

/// The last of the first `upto` points that may be the drop-off, if there is any.
pub open spec fn last_candidate(owners: Seq<Seq<char>>, survey: Survey, upto: int) -> Option<int>
    decreases upto,
{
    if upto <= 0 {
        None
    } else if may_be_drop_off(owners, survey, upto - 1) {
        Some(upto - 1)
    } else {
        last_candidate(owners, survey, upto - 1)
    }
}

/// The drop-off: the last point that may be one, if there is any.
pub open spec fn drop_off(owners: Seq<Seq<char>>, survey: Survey) -> Option<int> {
    last_candidate(owners, survey, owners.len() as int)
}

/// The last candidate among the first `upto` points may be the drop-off, and no later
/// one of them may; without a last candidate, none of them may.
pub proof fn lemma_last_candidate(owners: Seq<Seq<char>>, survey: Survey, upto: int)
    ensures
        match last_candidate(owners, survey, upto) {
            Some(at) => 0 <= at < upto && at < owners.len() && may_be_drop_off(owners, survey, at)
                && forall|k: int| at < k < upto ==> !may_be_drop_off(owners, survey, k),
            None => forall|k: int| 0 <= k < upto ==> !may_be_drop_off(owners, survey, k),
        },
    decreases upto,
{
    if upto > 0 {
        lemma_last_candidate(owners, survey, upto - 1);
    }
}

/// The drop-off may be one, and no point after it may.
pub proof fn lemma_drop_off(owners: Seq<Seq<char>>, survey: Survey)
    ensures
        match drop_off(owners, survey) {
            Some(at) => 0 <= at < owners.len() && may_be_drop_off(owners, survey, at)
                && forall|k: int| at < k ==> !may_be_drop_off(owners, survey, k),
            None => forall|k: int| !may_be_drop_off(owners, survey, k),
        },
{
    lemma_last_candidate(owners, survey, owners.len() as int);
}

/// Points that may not be the drop-off do not count: the last candidate before them is
/// the last candidate among all.
proof fn lemma_last_candidate_skips(owners: Seq<Seq<char>>, survey: Survey, from: int, upto: int)
    requires
        from <= upto,
        forall|k: int| from <= k < upto ==> !may_be_drop_off(owners, survey, k),
    ensures
        last_candidate(owners, survey, upto) == last_candidate(owners, survey, from),
    decreases upto - from,
{
    if from < upto {
        lemma_last_candidate_skips(owners, survey, from, upto - 1);
    }
}

/// For each point, whether it belongs to the trace that owns the last point.
fn last_owner_flags(points: &[PointWithId]) -> (flags: Vec<bool>)
    ensures
        flags@.len() == points@.len(),
        forall|i: int|
            0 <= i < points@.len() ==> flags@[i] == owned_by_last(owners(points@), i),
{
    let mut flags: Vec<bool> = Vec::new();
    let mut i: usize = 0;
    while i < points.len()
        invariant
            i <= points.len(),
            flags@.len() == i,
            forall|k: int| 0 <= k < i ==> flags@[k] == owned_by_last(owners(points@), k),
        decreases points.len() - i,
    {
        let same: bool = points[i].same_owner(&points[points.len() - 1]);
        flags.push(same);
        i += 1;
    }
    flags
}

/// Whether point `i` lies within the proximity radius of a point of the last owner.
fn is_close_to_last_owner(flags: &Vec<bool>, survey: &Survey, i: usize, Ghost(owners): Ghost<
    Seq<Seq<char>>,
>) -> (close: bool)
    requires
        flags@.len() == owners.len(),
        forall|k: int| 0 <= k < owners.len() ==> flags@[k] == owned_by_last(owners, k),
    ensures
        close == close_to_last_owner(owners, *survey, i as int),
{
    let mut j: usize = 0;
    while j < flags.len()
        invariant
            j <= flags.len(),
            flags@.len() == owners.len(),
            forall|k: int| 0 <= k < owners.len() ==> flags@[k] == owned_by_last(owners, k),
            forall|k: int|
                0 <= k < j ==> !(owned_by_last(owners, k) && #[trigger] survey.distance_spec(
                    i as int,
                    k,
                ) < MAX_POINTS_DELTA),
        decreases flags.len() - j,
    {
        if flags[j] && survey.distance(i, j) < MAX_POINTS_DELTA {
            assert(owned_by_last(owners, j as int) && survey.distance_spec(i as int, j as int)
                < MAX_POINTS_DELTA);
            return true;
        }
        j += 1;
    }
    false
}

/// The position of the drop-off among `points`: the last point of the trace that does not
/// own the last point of all which lies within the proximity radius of a point of the
/// trace that does.
pub fn find_drop_off(points: &[PointWithId], survey: &Survey) -> (found: Option<usize>)
    ensures
        match found {
            Some(at) => drop_off(owners(points@), *survey) == Some(at as int) && at
                < points@.len(),
            None => drop_off(owners(points@), *survey).is_none(),
        },
{
    let flags = last_owner_flags(points);
    let ghost labels = owners(points@);
    let mut i: usize = points.len();
    while i > 0
        invariant
            i <= points.len(),
            labels == owners(points@),
            flags@.len() == labels.len(),
            forall|k: int| 0 <= k < labels.len() ==> flags@[k] == owned_by_last(labels, k),
            forall|k: int| i <= k < labels.len() ==> !may_be_drop_off(labels, *survey, k),
        decreases i,
    {
        i -= 1;
        if !flags[i] {
            if is_close_to_last_owner(&flags, survey, i, Ghost(labels)) {
                proof {
                    lemma_last_candidate_skips(labels, *survey, i + 1, labels.len() as int);
                }
                return Some(i);
            }
        }
    }
    proof {
        lemma_last_candidate_skips(labels, *survey, 0, labels.len() as int);
    }
    None
}

/// Whether point `i` of a window of `n` points has a different owner than both of its
/// neighbours, as far as it has neighbours.
pub open spec fn isolated(owners: Seq<Seq<char>>, i: int) -> bool {
    &&& i == 0 || owners[i - 1] != owners[i]
    &&& i == owners.len() - 1 || owners[i + 1] != owners[i]
}

/// Whether points `i` and `i + 1` of a window of `n` points lie in one segment: in one run
/// of a single owner, or in one stretch of alternating owners.
pub open spec fn joined(owners: Seq<Seq<char>>, i: int) -> bool {
    owners[i] == owners[i + 1] || (isolated(owners, i) && isolated(owners, i + 1))
}

/// What the leg from `i` to `i + 1` adds to the common distance.
pub open spec fn leg_share(owners: Seq<Seq<char>>, survey: Survey, i: int) -> int {
    if joined(owners, i) {
        survey.distance_spec(i, i + 1) as int
    } else {
        0
    }
}

/// What the first `upto` legs of a window of `n` points add up to: every leg between two
/// points of one segment counts.
pub open spec fn joined_length(owners: Seq<Seq<char>>, survey: Survey, upto: int) -> int
    decreases upto,
{
    if upto <= 0 {
        0
    } else {
        joined_length(owners, survey, upto - 1) + leg_share(owners, survey, upto - 1)
    }
}

/// A length held at the largest value that a distance can take.
pub open spec fn capped(length: int) -> int {
    if length > u64::MAX {
        u64::MAX as int
    } else {
        length
    }
}

/// The common distance of a window of `n` points: the summed length of all its segments,
/// held at the largest distance.
pub open spec fn common_length(owners: Seq<Seq<char>>, survey: Survey) -> int {
    capped(joined_length(owners, survey, owners.len() - 1))
}

/// The length of the polyline through the points from `from` to `to`.
pub open spec fn polyline_length(survey: Survey, from: int, to: int) -> int
    decreases to - from,
{
    if to <= from {
        0
    } else {
        polyline_length(survey, from, to - 1) + survey.distance_spec(to - 1, to)
    }
}

/// The summed length of the polylines of the first `upto` segments.
pub open spec fn segments_length(survey: Survey, segments: Seq<Segment>, upto: int) -> int
    decreases upto,
{
    if upto <= 0 {
        0
    } else {
        segments_length(survey, segments, upto - 1) + polyline_length(
            survey,
            segments[upto - 1].start as int,
            segments[upto - 1].end - 1,
        )
    }
}

fn is_isolated(window: &[PointWithId], i: usize) -> (alone: bool)
    requires
        i < window@.len(),
    ensures
        alone == isolated(owners(window@), i as int),
{
    let before: bool = i == 0 || !window[i - 1].same_owner(&window[i]);
    let after: bool = i == window.len() - 1 || !window[i + 1].same_owner(&window[i]);
    before && after
}

fn is_joined(window: &[PointWithId], i: usize) -> (together: bool)
    requires
        i + 1 < window@.len(),
    ensures
        together == joined(owners(window@), i as int),
{
    window[i].same_owner(&window[i + 1]) || (is_isolated(window, i) && is_isolated(window, i + 1))
}

/// The common distance of a window of points: the summed length of its segments.
pub fn measure_segments(window: &[PointWithId], survey: &Survey) -> (length: u64)
    ensures
        length == common_length(owners(window@), *survey),
{
    let n: usize = window.len();
    let mut length: u64 = 0;
    let mut i: usize = 0;
    while i + 1 < n
        invariant
            n == window@.len(),
            i < n || (n == 0 && i == 0),
            length == capped(joined_length(owners(window@), *survey, i as int)),
        decreases n - i,
    {
        if is_joined(window, i) {
            length = add_distance(length, survey.distance(i, i + 1));
        } else {
            length = add_distance(length, 0);
        }
        i += 1;
    }
    proof {
        if n == 0 {
            assert(joined_length(owners(window@), *survey, -1) == 0);
        }
    }
    length
}

/// The two kinds of segment.
#[derive(Clone, Copy, Debug, PartialEq, Eq, Structural)]
pub enum SegmentKind {
    /// At least two consecutive points of one owner.
    Homogeneous,
    /// Consecutive points each of which has another owner than its neighbours.
    Mixed,
}

/// A segment of the window: the points from `start` up to, not including, `end`.
#[derive(Clone, Copy, Debug)]
pub struct Segment {
    pub kind: SegmentKind,
    pub start: usize,
    pub end: usize,
}

/// The kind of the segment that point `i` of a window of `n` points lies in.
pub open spec fn kind_at(owners: Seq<Seq<char>>, i: int) -> SegmentKind {
    if isolated(owners, i) {
        SegmentKind::Mixed
    } else {
        SegmentKind::Homogeneous
    }
}

/// The segments are not empty and cover the first `n` positions one after the other.
pub open spec fn tiles(segments: Seq<Segment>, n: int) -> bool {
    &&& n == 0 <==> segments.len() == 0
    &&& n > 0 ==> segments[0].start == 0 && segments.last().end == n
    &&& forall|k: int| 0 <= k < segments.len() ==> (#[trigger] segments[k]).start < segments[k].end
    &&& forall|k: int, l: int|
        0 <= k && l == k + 1 && l < segments.len() ==> (#[trigger] segments[k]).end
            == (#[trigger] segments[l]).start
}

/// The segment is one of the window of `n` points: its points are joined to each other
/// and to no neighbour outside of it, and it is of the kind of its points.
pub open spec fn is_segment(owners: Seq<Seq<char>>, segment: Segment) -> bool {
    &&& segment.start < segment.end <= owners.len()
    &&& forall|i: int| segment.start <= i < segment.end - 1 ==> joined(owners, i)
    &&& forall|i: int|
        segment.start <= i < segment.end ==> kind_at(owners, i) == segment.kind
    &&& segment.start > 0 ==> !joined(owners, segment.start - 1)
    &&& segment.end < owners.len() ==> !joined(owners, segment.end - 1)
}

/// The segments are those of the window of `n` points: they tile it, and each is one of
/// its segments.
pub open spec fn is_segmentation(owners: Seq<Seq<char>>, segments: Seq<Segment>) -> bool {
    &&& tiles(segments, owners.len() as int)
    &&& forall|k: int|
        0 <= k < segments.len() ==> is_segment(owners, #[trigger] segments[k])
}

/// The segments of a window of points: maximal runs of one owner and maximal stretches
/// of alternating owners, in order.
pub fn classify_segments(window: &[PointWithId]) -> (segments: Vec<Segment>)
    ensures
        is_segmentation(owners(window@), segments@),
{
    let n: usize = window.len();
    let mut segments: Vec<Segment> = Vec::new();
    if n == 0 {
        return segments;
    }
    let ghost labels = owners(window@);
    let mut start: usize = 0;
    let mut i: usize = 1;
    while i < n
        invariant
            1 <= i <= n,
            n == window@.len(),
            start < i,
            labels == owners(window@),
            segments@.len() == 0 ==> start == 0,
            segments@.len() > 0 ==> segments@[0].start == 0 && segments@.last().end == start,
            forall|k: int|
                0 <= k < segments@.len() ==> (#[trigger] segments@[k]).start < segments@[k].end,
            forall|k: int, l: int|
                0 <= k && l == k + 1 && l < segments@.len() ==> (#[trigger] segments@[k]).end
                    == (#[trigger] segments@[l]).start,
            forall|k: int| 0 <= k < segments@.len() ==> is_segment(labels, #[trigger] segments@[k]),
            start > 0 ==> !joined(labels, start - 1),
            forall|t: int| start <= t < i - 1 ==> joined(labels, t),
            forall|t: int| start <= t < i ==> kind_at(labels, t) == kind_at(labels, start as int),
        decreases n - i,
    {
        let together: bool = is_joined(window, i - 1);
        if !together {
            let kind = if is_isolated(window, start) {
                SegmentKind::Mixed
            } else {
                SegmentKind::Homogeneous
            };
            let segment = Segment { kind, start, end: i };
            assert(is_segment(labels, segment));
            segments.push(segment);
            start = i;
        } else {
            assert(kind_at(labels, i as int) == kind_at(labels, i - 1));
        }
        i += 1;
    }
    let kind = if is_isolated(window, start) {
        SegmentKind::Mixed
    } else {
        SegmentKind::Homogeneous
    };
    let segment = Segment { kind, start, end: n };
    assert(is_segment(labels, segment));
    segments.push(segment);
    segments
}

/// Within one segment every leg counts: the legs of the window up to a point of the
/// segment add up to the legs up to the start of the segment and the polyline from there.
proof fn lemma_joined_length_in_segment(
    owners: Seq<Seq<char>>,
    survey: Survey,
    segment: Segment,
    upto: int,
)
    requires
        is_segment(owners, segment),
        segment.start <= upto < segment.end,
    ensures
        joined_length(owners, survey, upto) == joined_length(
            owners,
            survey,
            segment.start as int,
        ) + polyline_length(survey, segment.start as int, upto),
    decreases upto - segment.start,
{
    if upto > segment.start {
        lemma_joined_length_in_segment(owners, survey, segment, upto - 1);
        assert(joined(owners, upto - 1));
    }
}

/// The legs of the window up to the start of a segment add up to the polylines of the
/// segments before it.
proof fn lemma_joined_length_before_segment(
    owners: Seq<Seq<char>>,
    survey: Survey,
    segments: Seq<Segment>,
    k: int,
)
    requires
        is_segmentation(owners, segments),
        0 <= k < segments.len(),
    ensures
        joined_length(owners, survey, segments[k].start as int) == segments_length(
            survey,
            segments,
            k,
        ),
    decreases k,
{
    if k > 0 {
        let before = segments[k - 1];
        lemma_joined_length_before_segment(owners, survey, segments, k - 1);
        lemma_joined_length_in_segment(owners, survey, before, before.end - 1);
        assert(before.end == segments[k].start);
        assert(!joined(owners, before.end - 1));
    }
}

/// The common distance is the summed length of the polylines of all segments, held at the
/// largest distance: the legs from one segment to the next do not count.
pub proof fn lemma_common_length_by_segments(
    owners: Seq<Seq<char>>,
    survey: Survey,
    segments: Seq<Segment>,
)
    requires
        is_segmentation(owners, segments),
    ensures
        common_length(owners, survey) == capped(
            segments_length(survey, segments, segments.len() as int),
        ),
{
    let n = owners.len() as int;
    if n > 0 {
        let k = segments.len() - 1;
        lemma_joined_length_before_segment(owners, survey, segments, k);
        lemma_joined_length_in_segment(owners, survey, segments[k], n - 1);
    } else {
        assert(joined_length(owners, survey, n - 1) == 0);
    }
}

/// The positions held in a vector, as mathematical integers.
pub open spec fn positions(list: Seq<usize>) -> Seq<int> {
    Seq::new(list.len(), |k: int| list[k] as int)
}

/// Every position of the list is below `n`.
pub open spec fn all_below(list: Seq<int>, n: int) -> bool {
    forall|k: int| 0 <= k < list.len() ==> 0 <= #[trigger] list[k] < n
}

/// The positions of the list grow strictly.
pub open spec fn ascending(list: Seq<int>) -> bool {
    forall|k: int, l: int| 0 <= k < l < list.len() ==> list[k] < list[l]
}

/// An ascending list of positions below `n` holds no more than `n` positions.
pub proof fn lemma_ascending_is_short(list: Seq<int>, n: int)
    requires
        ascending(list),
        all_below(list, n),
    ensures
        list.len() > 0 ==> list.len() <= n,
        forall|k: int| 0 <= k < list.len() ==> k <= #[trigger] list[k],
    decreases list.len(),
{
    if list.len() > 0 {
        let shorter = list.drop_last();
        assert(ascending(shorter)) by {
            assert forall|k: int, l: int| 0 <= k < l < shorter.len() implies shorter[k]
                < shorter[l] by {
                assert(shorter[k] == list[k] && shorter[l] == list[l]);
            }
        }
        assert(all_below(shorter, n)) by {
            assert forall|k: int| 0 <= k < shorter.len() implies 0 <= #[trigger] shorter[k]
                < n by {
                assert(shorter[k] == list[k]);
            }
        }
        lemma_ascending_is_short(shorter, n);
        assert forall|k: int| 0 <= k < list.len() implies k <= #[trigger] list[k] by {
            if k < shorter.len() {
                assert(shorter[k] == list[k]);
            } else if k > 0 {
                assert(shorter[k - 1] == list[k - 1]);
                assert(list[k - 1] < list[k]);
            } else {
                assert(0 <= list[0]);
            }
        }
        assert(list.len() - 1 <= list[list.len() - 1] < n);
    }
}

/// The turn pass from point `i` of the window onwards.
///
/// The last point of the window stays. A point that lies between two points of its own
/// trace stays. A point whose predecessor and successor belong to one trace, not its own,
/// and lie less than [`SHORT_HOP`] apart is a flicker: the successor stands in for it and
/// is not looked at again. Any other point stays when the bearings towards its predecessor
/// and towards its successor differ by at least [`MAX_BEARING`], and goes when they do not.
pub open spec fn turn_pass_from(owners: Seq<Seq<char>>, survey: Survey, i: int) -> Seq<int>
    decreases owners.len() - i,
{
    if i >= owners.len() {
        Seq::empty()
    } else if i == owners.len() - 1 {
        seq![i]
    } else if owners[i - 1] == owners[i] && owners[i + 1] == owners[i] {
        seq![i] + turn_pass_from(owners, survey, i + 1)
    } else if owners[i - 1] != owners[i] && owners[i - 1] == owners[i + 1] && survey.distance_spec(
        i - 1,
        i + 1,
    ) < SHORT_HOP {
        seq![i + 1] + turn_pass_from(owners, survey, i + 2)
    } else if survey.turn_spec(i - 1, i, i + 1) >= MAX_BEARING {
        seq![i] + turn_pass_from(owners, survey, i + 1)
    } else {
        turn_pass_from(owners, survey, i + 1)
    }
}

/// The first filter pass over a window: the first point stays, and the turn pass decides
/// on all others.
pub open spec fn turn_pass(owners: Seq<Seq<char>>, survey: Survey) -> Seq<int> {
    if owners.len() == 0 {
        Seq::empty()
    } else {
        seq![0int] + turn_pass_from(owners, survey, 1)
    }
}

/// What the turn pass keeps from `i` onwards lies between `i` and the end of the window,
/// in ascending order, and ends with the last point of the window.
pub proof fn lemma_turn_pass_from(owners: Seq<Seq<char>>, survey: Survey, i: int)
    requires
        1 <= i,
    ensures
        forall|k: int|
            0 <= k < turn_pass_from(owners, survey, i).len() ==> i <= #[trigger] turn_pass_from(
                owners,
                survey,
                i,
            )[k] < owners.len(),
        ascending(turn_pass_from(owners, survey, i)),
        i < owners.len() ==> turn_pass_from(owners, survey, i).len() > 0 && turn_pass_from(
            owners,
            survey,
            i,
        ).last() == owners.len() - 1,
    decreases owners.len() - i,
{
    if i >= owners.len() {
    } else if i == owners.len() - 1 {
    } else {
        lemma_turn_pass_from(owners, survey, i + 1);
        lemma_turn_pass_from(owners, survey, i + 2);
    }
}

/// The first pass keeps positions of the window, in ascending order, the first and the
/// last point of the window among them.
pub proof fn lemma_turn_pass(owners: Seq<Seq<char>>, survey: Survey)
    ensures
        all_below(turn_pass(owners, survey), owners.len() as int),
        ascending(turn_pass(owners, survey)),
        owners.len() > 0 ==> turn_pass(owners, survey).len() > 0 && turn_pass(owners, survey)[0]
            == 0 && turn_pass(owners, survey).last() == owners.len() - 1,
{
    lemma_turn_pass_from(owners, survey, 1);
}

/// The first filter pass over a window of points.
pub fn filter_turns(window: &[PointWithId], survey: &Survey) -> (kept: Vec<usize>)
    ensures
        positions(kept@) == turn_pass(owners(window@), *survey),
        all_below(positions(kept@), window@.len() as int),
        ascending(positions(kept@)),
{
    let n: usize = window.len();
    let mut kept: Vec<usize> = Vec::new();
    let ghost labels = owners(window@);
    proof {
        lemma_turn_pass(labels, *survey);
    }
    if n == 0 {
        assert(positions(kept@) =~= Seq::<int>::empty());
        return kept;
    }
    kept.push(0);
    let mut i: usize = 1;
    assert(positions(kept@) =~= seq![0int]);
    while i < n
        invariant
            1 <= i,
            n == window@.len(),
            labels == owners(window@),
            positions(kept@) + turn_pass_from(labels, *survey, i as int) == turn_pass(
                labels,
                *survey,
            ),
        decreases n - i,
    {
        let ghost before = positions(kept@);
        let ghost rest = turn_pass_from(labels, *survey, i as int);
        if i == n - 1 {
            kept.push(i);
            i += 1;
            proof {
                assert(positions(kept@) =~= before + rest);
                assert(before + rest + Seq::<int>::empty() =~= before + rest);
            }
        } else {
            let before_same: bool = window[i - 1].same_owner(&window[i]);
            let after_same: bool = window[i + 1].same_owner(&window[i]);
            if before_same && after_same {
                kept.push(i);
                i += 1;
                proof {
                    let tail = turn_pass_from(labels, *survey, i as int);
                    assert(positions(kept@) + tail =~= before + (seq![i - 1] + tail));
                }
            } else if !before_same && window[i - 1].same_owner(&window[i + 1]) && survey.distance(
                i - 1,
                i + 1,
            ) < SHORT_HOP {
                kept.push(i + 1);
                i += 2;
                proof {
                    let tail = turn_pass_from(labels, *survey, i as int);
                    assert(positions(kept@) + tail =~= before + (seq![i - 1] + tail));
                }
            } else if survey.turn(i - 1, i, i + 1) >= MAX_BEARING {
                kept.push(i);
                i += 1;
                proof {
                    let tail = turn_pass_from(labels, *survey, i as int);
                    assert(positions(kept@) + tail =~= before + (seq![i - 1] + tail));
                }
            } else {
                i += 1;
            }
        }
    }
    proof {
        assert(positions(kept@) + Seq::<int>::empty() =~= positions(kept@));
    }
    kept
}

/// One if the condition holds, zero if it does not.
pub open spec fn one_if(condition: bool) -> int {
    if condition {
        1
    } else {
        0
    }
}

/// Whether the points at the positions `a` and `b` are points of one owner. A position
/// beyond the points has no owner.
pub open spec fn same_owner(owners: Seq<Seq<char>>, a: int, b: int) -> bool {
    0 <= a < owners.len() && 0 <= b < owners.len() && owners[a] == owners[b]
}

/// How many of the five points of the window that starts at place `s` of the list have
/// the owner of the window's point `j`.
pub open spec fn owner_count(owners: Seq<Seq<char>>, list: Seq<int>, s: int, j: int) -> int {
    let point = list[s + j];
    one_if(same_owner(owners, list[s], point)) + one_if(same_owner(owners, list[s + 1], point))
        + one_if(same_owner(owners, list[s + 2], point)) + one_if(
        same_owner(owners, list[s + 3], point),
    ) + one_if(same_owner(owners, list[s + 4], point))
}

/// Whether the window that starts at place `s` of the list keeps its point `j`.
///
/// The window that starts the list keeps its first point, the start of the route, and
/// nothing else. Any other window keeps its last point if that is the end of the list;
/// and it keeps its first point if it spans more than [`WINDOW_SPAN`] from its first to
/// its last point, and else every point whose owner has at least [`WINDOW_MAJORITY`] of
/// the window's points.
pub open spec fn window_keeps(
    owners: Seq<Seq<char>>,
    survey: Survey,
    list: Seq<int>,
    s: int,
    j: int,
) -> bool {
    if s == 0 {
        j == 0
    } else {
        ||| j == WINDOW_SIZE - 1 && s + WINDOW_SIZE == list.len()
        ||| if survey.distance_spec(list[s], list[s + WINDOW_SIZE - 1]) > WINDOW_SPAN {
            j == 0
        } else {
            owner_count(owners, list, s, j) >= WINDOW_MAJORITY
        }
    }
}

/// Whether one of the first `windows` windows keeps place `k` of the list.
pub open spec fn kept_by_window(
    owners: Seq<Seq<char>>,
    survey: Survey,
    list: Seq<int>,
    k: int,
    windows: int,
) -> bool
    decreases windows,
{
    if windows <= 0 {
        false
    } else {
        let s = windows - 1;
        kept_by_window(owners, survey, list, k, s) || (s <= k < s + WINDOW_SIZE && window_keeps(
            owners,
            survey,
            list,
            s,
            k - s,
        ))
    }
}

/// Whether place `k` of the list outlasts the window pass: a list of no more than
/// [`WINDOW_SIZE`] points stays whole, and of a longer one the places that some window
/// keeps.
pub open spec fn outlasts_windows(
    owners: Seq<Seq<char>>,
    survey: Survey,
    list: Seq<int>,
    k: int,
) -> bool {
    list.len() <= WINDOW_SIZE || kept_by_window(
        owners,
        survey,
        list,
        k,
        list.len() - WINDOW_SIZE + 1,
    )
}

/// The entries of the first `upto` places of the list that `keep` holds of, in order.
pub open spec fn pick(list: Seq<int>, keep: spec_fn(int) -> bool, upto: int) -> Seq<int>
    decreases upto,
{
    if upto <= 0 {
        Seq::empty()
    } else if keep(upto - 1) {
        pick(list, keep, upto - 1).push(list[upto - 1])
    } else {
        pick(list, keep, upto - 1)
    }
}

/// The second filter pass: what is left of the list after a window of [`WINDOW_SIZE`]
/// points has slid over it.
pub open spec fn window_pass(owners: Seq<Seq<char>>, survey: Survey, list: Seq<int>) -> Seq<int> {
    pick(list, |k: int| outlasts_windows(owners, survey, list, k), list.len() as int)
}

/// A place is kept by one of the first windows exactly when one of them holds it and
/// keeps it.
pub proof fn lemma_kept_by_window(
    owners: Seq<Seq<char>>,
    survey: Survey,
    list: Seq<int>,
    k: int,
    windows: int,
)
    ensures
        kept_by_window(owners, survey, list, k, windows) <==> exists|s: int|
            0 <= s < windows && s <= k < s + WINDOW_SIZE && #[trigger] window_keeps(
                owners,
                survey,
                list,
                s,
                k - s,
            ),
    decreases windows,
{
    if windows > 0 {
        lemma_kept_by_window(owners, survey, list, k, windows - 1);
        if kept_by_window(owners, survey, list, k, windows) {
            if kept_by_window(owners, survey, list, k, windows - 1) {
                let s = choose|s: int|
                    0 <= s < windows - 1 && s <= k < s + WINDOW_SIZE && #[trigger] window_keeps(
                        owners,
                        survey,
                        list,
                        s,
                        k - s,
                    );
                assert(0 <= s < windows);
            } else {
                assert(window_keeps(owners, survey, list, windows - 1, k - (windows - 1)));
            }
        }
    }
}

/// Whether the value stands at one of the first `upto` places of the list.
pub open spec fn among_first(list: Seq<int>, upto: int, value: int) -> bool {
    exists|k: int| 0 <= k < upto && list[k] == value
}

/// What is picked are entries of the list, in the order of the list.
pub proof fn lemma_pick(list: Seq<int>, keep: spec_fn(int) -> bool, upto: int)
    requires
        0 <= upto <= list.len(),
    ensures
        pick(list, keep, upto).len() <= upto,
        forall|t: int|
            0 <= t < pick(list, keep, upto).len() ==> among_first(
                list,
                upto,
                #[trigger] pick(list, keep, upto)[t],
            ),
        ascending(list) ==> ascending(pick(list, keep, upto)),
        upto > 0 && keep(0) ==> pick(list, keep, upto).len() > 0 && pick(list, keep, upto)[0]
            == list[0],
        upto > 0 && keep(upto - 1) ==> pick(list, keep, upto).len() > 0 && pick(
            list,
            keep,
            upto,
        ).last() == list[upto - 1],
        (forall|k: int| 0 <= k < upto ==> #[trigger] keep(k)) ==> pick(list, keep, upto)
            == list.take(upto),
    decreases upto,
{
    if upto > 0 {
        lemma_pick(list, keep, upto - 1);
        let inner = pick(list, keep, upto - 1);
        let out = pick(list, keep, upto);
        assert forall|t: int| 0 <= t < out.len() implies among_first(
            list,
            upto,
            #[trigger] out[t],
        ) by {
            if t < inner.len() {
                assert(among_first(list, upto - 1, inner[t]));
                let k = choose|k: int| 0 <= k < upto - 1 && list[k] == inner[t];
                assert(0 <= k < upto && list[k] == out[t]);
            } else {
                assert(list[upto - 1] == out[t]);
            }
        }
        if ascending(list) {
            assert forall|a: int, b: int| 0 <= a < b < out.len() implies out[a] < out[b] by {
                if b == inner.len() {
                    assert(among_first(list, upto - 1, inner[a]));
                    let k = choose|k: int| 0 <= k < upto - 1 && list[k] == inner[a];
                    assert(list[k] < list[upto - 1]);
                }
            }
        }
        if forall|k: int| 0 <= k < upto ==> #[trigger] keep(k) {
            assert(list.take(upto - 1).push(list[upto - 1]) =~= list.take(upto));
        }
    } else {
        assert(list.take(upto) =~= Seq::<int>::empty());
    }
}

/// A place that one window keeps is kept by every later count of windows too.
proof fn lemma_kept_by_window_grows(
    owners: Seq<Seq<char>>,
    survey: Survey,
    list: Seq<int>,
    k: int,
    few: int,
    many: int,
)
    requires
        few <= many,
        kept_by_window(owners, survey, list, k, few),
    ensures
        kept_by_window(owners, survey, list, k, many),
    decreases many - few,
{
    if few < many {
        lemma_kept_by_window_grows(owners, survey, list, k, few, many - 1);
    }
}

/// The second pass keeps entries of the list in their order, the first and the last entry
/// among them.
pub proof fn lemma_window_pass(owners: Seq<Seq<char>>, survey: Survey, list: Seq<int>)
    ensures
        forall|t: int|
            0 <= t < window_pass(owners, survey, list).len() ==> list.contains(
                #[trigger] window_pass(owners, survey, list)[t],
            ),
        ascending(list) ==> ascending(window_pass(owners, survey, list)),
        list.len() > 0 ==> window_pass(owners, survey, list).len() > 0 && window_pass(
            owners,
            survey,
            list,
        )[0] == list[0] && window_pass(owners, survey, list).last() == list.last(),
        list.len() <= WINDOW_SIZE ==> window_pass(owners, survey, list) == list,
{
    let keep = |k: int| outlasts_windows(owners, survey, list, k);
    let m = list.len() as int;
    lemma_pick(list, keep, m);
    assert(list.take(m) =~= list);
    let out = window_pass(owners, survey, list);
    assert forall|t: int| 0 <= t < out.len() implies list.contains(#[trigger] out[t]) by {
        assert(among_first(list, m, out[t]));
        let k = choose|k: int| 0 <= k < m && list[k] == out[t];
        assert(list[k] == out[t]);
    }
    if m > WINDOW_SIZE {
        assert(kept_by_window(owners, survey, list, 0, 1));
        lemma_kept_by_window_grows(owners, survey, list, 0, 1, m - WINDOW_SIZE + 1);
        assert(keep(0));
        assert(window_keeps(owners, survey, list, m - WINDOW_SIZE, WINDOW_SIZE - 1));
        assert(keep(m - 1));
    } else if m > 0 {
        assert(keep(0));
        assert(keep(m - 1));
    }
}

fn have_same_owner(points: &[PointWithId], a: usize, b: usize) -> (same: bool)
    ensures
        same == same_owner(owners(points@), a as int, b as int),
{
    a < points.len() && b < points.len() && points[a].same_owner(&points[b])
}

fn count_owner(points: &[PointWithId], list: &Vec<usize>, s: usize, j: usize) -> (count: usize)
    requires
        s + WINDOW_SIZE <= list@.len(),
        j < WINDOW_SIZE,
    ensures
        count == owner_count(owners(points@), positions(list@), s as int, j as int),
{
    let m: usize = list.len();
    let point: usize = list[s + j];
    let mut count: usize = 0;
    if have_same_owner(points, list[s], point) {
        count += 1;
    }
    if have_same_owner(points, list[s + 1], point) {
        count += 1;
    }
    if have_same_owner(points, list[s + 2], point) {
        count += 1;
    }
    if have_same_owner(points, list[s + 3], point) {
        count += 1;
    }
    if have_same_owner(points, list[s + 4], point) {
        count += 1;
    }
    count
}

fn does_window_keep(
    points: &[PointWithId],
    survey: &Survey,
    list: &Vec<usize>,
    s: usize,
    j: usize,
) -> (keeps: bool)
    requires
        s + WINDOW_SIZE <= list@.len(),
        j < WINDOW_SIZE,
    ensures
        keeps == window_keeps(owners(points@), *survey, positions(list@), s as int, j as int),
{
    let m: usize = list.len();
    if s == 0 {
        return j == 0;
    }
    if j == WINDOW_SIZE - 1 && s + WINDOW_SIZE == m {
        return true;
    }
    if survey.distance(list[s], list[s + WINDOW_SIZE - 1]) > WINDOW_SPAN {
        j == 0
    } else {
        count_owner(points, list, s, j) >= WINDOW_MAJORITY
    }
}

/// A copy of the list.
fn copy_of(list: &Vec<usize>) -> (copy: Vec<usize>)
    ensures
        copy@ == list@,
{
    let mut copy: Vec<usize> = Vec::new();
    let mut k: usize = 0;
    while k < list.len()
        invariant
            k <= list@.len(),
            copy@ == list@.take(k as int),
        decreases list.len() - k,
    {
        copy.push(list[k]);
        proof {
            assert(list@.take(k + 1) =~= list@.take(k as int).push(list@[k as int]));
        }
        k += 1;
    }
    proof {
        assert(list@.take(k as int) =~= list@);
    }
    copy
}

/// The second filter pass over a list of positions among `points`.
pub fn consolidate_windows(points: &[PointWithId], survey: &Survey, list: &Vec<usize>) -> (kept:
    Vec<usize>)
    ensures
        positions(kept@) == window_pass(owners(points@), *survey, positions(list@)),
        forall|bound: int|
            all_below(positions(list@), bound) ==> all_below(positions(kept@), bound),
        ascending(positions(list@)) ==> ascending(positions(kept@)),
{
    let ghost labels = owners(points@);
    let ghost places = positions(list@);
    let ghost keep = |k: int| outlasts_windows(labels, *survey, places, k);
    proof {
        lemma_window_pass(labels, *survey, places);
        assert forall|bound: int| all_below(places, bound) implies all_below(
            window_pass(labels, *survey, places),
            bound,
        ) by {
            assert forall|t: int|
                0 <= t < window_pass(labels, *survey, places).len() implies 0
                <= #[trigger] window_pass(labels, *survey, places)[t] < bound by {
                let value = window_pass(labels, *survey, places)[t];
                assert(places.contains(value));
                let k = choose|k: int| 0 <= k < places.len() && places[k] == value;
                assert(0 <= places[k] < bound);
            }
        }
    }
    let m: usize = list.len();
    if m <= WINDOW_SIZE {
        let kept = copy_of(list);
        assert(positions(kept@) =~= places);
        return kept;
    }
    let mut marks: Vec<bool> = Vec::new();
    let mut k: usize = 0;
    while k < m
        invariant
            k <= m,
            marks@.len() == k,
            forall|t: int| 0 <= t < k ==> !marks@[t],
        decreases m - k,
    {
        marks.push(false);
        k += 1;
    }
    let windows: usize = m - WINDOW_SIZE + 1;
    let mut s: usize = 0;
    while s < windows
        invariant
            m == list@.len(),
            m > WINDOW_SIZE,
            windows == m - WINDOW_SIZE + 1,
            s <= windows,
            marks@.len() == m,
            labels == owners(points@),
            places == positions(list@),
            forall|t: int|
                0 <= t < m ==> marks@[t] == kept_by_window(labels, *survey, places, t, s as int),
        decreases windows - s,
    {
        let mut j: usize = 0;
        while j < WINDOW_SIZE
            invariant
                j <= WINDOW_SIZE,
                m == list@.len(),
                s + WINDOW_SIZE <= m,
                m <= usize::MAX,
                marks@.len() == m,
                labels == owners(points@),
                places == positions(list@),
                forall|t: int|
                    0 <= t < m ==> marks@[t] == (kept_by_window(
                        labels,
                        *survey,
                        places,
                        t,
                        s as int,
                    ) || (s <= t < s + j && window_keeps(labels, *survey, places, s as int, t - s))),
            decreases WINDOW_SIZE - j,
        {
            if does_window_keep(points, survey, list, s, j) {
                marks.set(s + j, true);
            }
            j += 1;
        }
        s += 1;
    }
    let mut kept: Vec<usize> = Vec::new();
    let mut k: usize = 0;
    proof {
        assert(positions(kept@) =~= pick(places, keep, 0));
    }
    while k < m
        invariant
            k <= m,
            m == list@.len(),
            m > WINDOW_SIZE,
            marks@.len() == m,
            places == positions(list@),
            keep == (|k: int| outlasts_windows(labels, *survey, places, k)),
            forall|t: int|
                0 <= t < m ==> marks@[t] == kept_by_window(
                    labels,
                    *survey,
                    places,
                    t,
                    m - WINDOW_SIZE + 1,
                ),
            positions(kept@) == pick(places, keep, k as int),
        decreases m - k,
    {
        let ghost before = positions(kept@);
        if marks[k] {
            kept.push(list[k]);
            proof {
                assert(keep(k as int));
                assert(positions(kept@) =~= before.push(places[k as int]));
            }
        } else {
            proof {
                assert(!keep(k as int));
            }
        }
        k += 1;
    }
    kept
}

/// The bearing pass from candidate `c` of the list onwards, `last` being the point kept
/// last. A candidate stays when the bearings from it towards `last` and towards its
/// successor in the list differ by at least [`MAX_BEARING`].
pub open spec fn bearing_pass_from(survey: Survey, list: Seq<int>, c: int, last: int) -> Seq<int>
    decreases list.len() - c,
{
    if c >= list.len() - 1 {
        Seq::empty()
    } else if survey.turn_spec(last, list[c], list[c + 1]) >= MAX_BEARING {
        seq![list[c]] + bearing_pass_from(survey, list, c + 1, list[c])
    } else {
        bearing_pass_from(survey, list, c + 1, last)
    }
}

/// The third filter pass: the first and the last point of the list stay, and the bearing
/// pass decides on the points between them.
pub open spec fn bearing_pass(survey: Survey, list: Seq<int>) -> Seq<int> {
    if list.len() <= 1 {
        list
    } else {
        seq![list[0]] + bearing_pass_from(survey, list, 1, list[0]) + seq![list.last()]
    }
}

/// What the bearing pass keeps from `c` onwards are entries of the list between `c` and
/// the last entry, in the order of the list.
pub proof fn lemma_bearing_pass_from(survey: Survey, list: Seq<int>, c: int, last: int)
    requires
        1 <= c,
    ensures
        forall|t: int|
            0 <= t < bearing_pass_from(survey, list, c, last).len() ==> exists|k: int|
                c <= k < list.len() - 1 && list[k] == #[trigger] bearing_pass_from(
                    survey,
                    list,
                    c,
                    last,
                )[t],
        ascending(list) ==> ascending(bearing_pass_from(survey, list, c, last)),
    decreases list.len() - c,
{
    if c >= list.len() - 1 {
    } else {
        let out = bearing_pass_from(survey, list, c, last);
        if survey.turn_spec(last, list[c], list[c + 1]) >= MAX_BEARING {
            lemma_bearing_pass_from(survey, list, c + 1, list[c]);
            let tail = bearing_pass_from(survey, list, c + 1, list[c]);
            assert forall|t: int| 0 <= t < out.len() implies exists|k: int|
                c <= k < list.len() - 1 && list[k] == #[trigger] out[t] by {
                if t == 0 {
                    assert(list[c] == out[0]);
                } else {
                    assert(out[t] == tail[t - 1]);
                    let k = choose|k: int| c + 1 <= k < list.len() - 1 && list[k] == tail[t - 1];
                    assert(c <= k < list.len() - 1 && list[k] == out[t]);
                }
            }
            if ascending(list) {
                assert forall|a: int, b: int| 0 <= a < b < out.len() implies out[a] < out[b] by {
                    assert(out[b] == tail[b - 1]);
                    if a == 0 {
                        let k = choose|k: int|
                            c + 1 <= k < list.len() - 1 && list[k] == tail[b - 1];
                        assert(list[c] < list[k]);
                    } else {
                        assert(out[a] == tail[a - 1]);
                    }
                }
            }
        } else {
            lemma_bearing_pass_from(survey, list, c + 1, last);
            let tail = bearing_pass_from(survey, list, c + 1, last);
            assert forall|t: int| 0 <= t < out.len() implies exists|k: int|
                c <= k < list.len() - 1 && list[k] == #[trigger] out[t] by {
                let k = choose|k: int| c + 1 <= k < list.len() - 1 && list[k] == tail[t];
                assert(c <= k < list.len() - 1 && list[k] == out[t]);
            }
        }
    }
}

/// The third pass keeps entries of the list in their order, the first and the last entry
/// among them.
pub proof fn lemma_bearing_pass(survey: Survey, list: Seq<int>)
    ensures
        forall|t: int|
            0 <= t < bearing_pass(survey, list).len() ==> list.contains(
                #[trigger] bearing_pass(survey, list)[t],
            ),
        ascending(list) ==> ascending(bearing_pass(survey, list)),
        list.len() > 0 ==> bearing_pass(survey, list).len() > 0 && bearing_pass(survey, list)[0]
            == list[0] && bearing_pass(survey, list).last() == list.last(),
{
    if list.len() > 1 {
        lemma_bearing_pass_from(survey, list, 1, list[0]);
        let middle = bearing_pass_from(survey, list, 1, list[0]);
        let out = bearing_pass(survey, list);
        assert forall|t: int| 0 <= t < out.len() implies list.contains(#[trigger] out[t]) by {
            if t == 0 {
                assert(list[0] == out[t]);
            } else if t == out.len() - 1 {
                assert(list[list.len() - 1] == out[t]);
            } else {
                assert(out[t] == middle[t - 1]);
                let k = choose|k: int| 1 <= k < list.len() - 1 && list[k] == middle[t - 1];
                assert(list[k] == out[t]);
            }
        }
        if ascending(list) {
            assert forall|a: int, b: int| 0 <= a < b < out.len() implies out[a] < out[b] by {
                let high = if b == out.len() - 1 {
                    list.len() - 1
                } else {
                    choose|k: int| 1 <= k < list.len() - 1 && list[k] == middle[b - 1]
                };
                let low = if a == 0 {
                    0
                } else {
                    choose|k: int| 1 <= k < list.len() - 1 && list[k] == middle[a - 1]
                };
                assert(out[b] == list[high]);
                assert(out[a] == list[low]);
                if 0 < a && b < out.len() - 1 {
                    assert(middle[a - 1] < middle[b - 1]);
                } else {
                    assert(low < high);
                }
            }
        }
    } else if list.len() == 1 {
        assert(list[0] == bearing_pass(survey, list)[0]);
    }
}

/// The third filter pass over a list of positions.
pub fn filter_bearings(survey: &Survey, list: &Vec<usize>) -> (kept: Vec<usize>)
    ensures
        positions(kept@) == bearing_pass(*survey, positions(list@)),
{
    let ghost places = positions(list@);
    let m: usize = list.len();
    if m <= 1 {
        let kept = copy_of(list);
        assert(positions(kept@) =~= places);
        return kept;
    }
    let mut kept: Vec<usize> = Vec::new();
    kept.push(list[0]);
    let mut last: usize = list[0];
    let mut c: usize = 1;
    proof {
        assert(positions(kept@) =~= seq![places[0]]);
    }
    while c + 1 < m
        invariant
            1 <= c < m,
            m == list@.len(),
            places == positions(list@),
            positions(kept@) + bearing_pass_from(*survey, places, c as int, last as int) + seq![
                places.last(),
            ] == bearing_pass(*survey, places),
        decreases m - c,
    {
        let ghost before = positions(kept@);
        let ghost end = seq![places.last()];
        if survey.turn(last, list[c], list[c + 1]) >= MAX_BEARING {
            kept.push(list[c]);
            last = list[c];
            proof {
                let tail = bearing_pass_from(*survey, places, c + 1, last as int);
                assert(positions(kept@) + tail + end =~= before + (seq![places[c as int]] + tail)
                    + end);
            }
        }
        c += 1;
    }
    let ghost before = positions(kept@);
    kept.push(list[m - 1]);
    proof {
        assert(bearing_pass_from(*survey, places, c as int, last as int) =~= Seq::<int>::empty());
        assert(positions(kept@) =~= before + Seq::<int>::empty() + seq![places.last()]);
    }
    kept
}

/// The points that represent the route of a window of `n` points: what the three filter
/// passes leave of it.
pub open spec fn representatives(owners: Seq<Seq<char>>, survey: Survey) -> Seq<int> {
    bearing_pass(survey, window_pass(owners, survey, turn_pass(owners, survey)))
}

/// The representatives are points of the window in ascending order, the first and the
/// last point of the window among them.
pub proof fn lemma_representatives(owners: Seq<Seq<char>>, survey: Survey)
    ensures
        all_below(representatives(owners, survey), owners.len() as int),
        ascending(representatives(owners, survey)),
        owners.len() > 0 ==> representatives(owners, survey).len() > 0 && representatives(
            owners,
            survey,
        )[0] == 0 && representatives(owners, survey).last() == owners.len() - 1,
{
    let first = turn_pass(owners, survey);
    let second = window_pass(owners, survey, first);
    let third = bearing_pass(survey, second);
    lemma_turn_pass(owners, survey);
    lemma_window_pass(owners, survey, first);
    lemma_bearing_pass(survey, second);
    assert forall|t: int| 0 <= t < third.len() implies 0 <= #[trigger] third[t]
        < owners.len() by {
        assert(second.contains(third[t]));
        let k = choose|k: int| 0 <= k < second.len() && second[k] == third[t];
        assert(first.contains(second[k]));
        let l = choose|l: int| 0 <= l < first.len() && first[l] == second[k];
        assert(0 <= first[l] < owners.len());
    }
}

/// What two traces have in common, in positions of their merged points.
#[derive(Debug)]
pub struct Route {
    /// The position of the drop-off, the last point of the window.
    pub drop_off: usize,
    /// The common distance in millimetres.
    pub distance: u64,
    /// The positions of the points that represent the route, in ascending order.
    pub kept: Vec<usize>,
}

/// The owners of the window that ends at the drop-off `at`.
pub open spec fn window_to(owners: Seq<Seq<char>>, at: int) -> Seq<Seq<char>> {
    owners.take(at + 1)
}

/// The common route of the merged points under the survey, if they have a drop-off: the
/// window runs from the first point to the drop-off.
pub fn common_route(points: &[PointWithId], survey: &Survey) -> (found: Option<Route>)
    ensures
        found.is_some() == drop_off(owners(points@), *survey).is_some(),
        found.is_some() ==> {
            let route = found.unwrap();
            let window = window_to(owners(points@), route.drop_off as int);
            &&& drop_off(owners(points@), *survey) == Some(route.drop_off as int)
            &&& route.drop_off < points@.len()
            &&& route.distance == common_length(window, *survey)
            &&& positions(route.kept@) == representatives(window, *survey)
            &&& all_below(positions(route.kept@), route.drop_off + 1)
            &&& ascending(positions(route.kept@))
            &&& route.kept@.len() > 0
            &&& route.kept@[0] == 0
            &&& route.kept@.last() == route.drop_off
        },
{
    match find_drop_off(points, survey) {
        None => None,
        Some(at) => {
            let total: usize = points.len();
            let end: usize = if at < total {
                at + 1
            } else {
                total
            };
            let window = slice_subrange(points, 0, end);
            proof {
                assert(owners(window@) =~= window_to(owners(points@), at as int));
                lemma_representatives(owners(window@), *survey);
            }
            let distance = measure_segments(window, survey);
            let first = filter_turns(window, survey);
            let second = consolidate_windows(window, survey, &first);
            let kept = filter_bearings(survey, &second);
            Some(Route { drop_off: at, distance, kept })
        },
    }
}

} // verus!

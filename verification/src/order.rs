//! Ordering points by time: the stable sort of one trace and the merge of two.
//!
//! The merge of two sequences does not depend on which of them is named first as long as
//! no two points, one of each, share both their instant and their owner: of two points of
//! one instant, the one whose owner has the smaller label comes first.

use crate::point::PointWithId;
use vstd::prelude::*;
use vstd::utf8::{encode_utf8, encode_utf8_decode_utf8};

verus! {

/// No point comes before a point with a smaller timestamp.
pub open spec fn sorted_by_time(points: Seq<PointWithId>) -> bool {
    forall|i: int, j: int|
        0 <= i <= j < points.len() ==> points[i].timestamp <= points[j].timestamp
}

/// `sorted` with `point` put behind every point that is not later than it.
pub open spec fn insert_by_time(sorted: Seq<PointWithId>, point: PointWithId) -> Seq<PointWithId>
    decreases sorted.len(),
{
    if sorted.len() == 0 {
        seq![point]
    } else if sorted.last().timestamp <= point.timestamp {
        sorted.push(point)
    } else {
        insert_by_time(sorted.drop_last(), point).push(sorted.last())
    }
}

/// The points in ascending order of time; points of one instant keep their order.
pub open spec fn sort_by_time(points: Seq<PointWithId>) -> Seq<PointWithId>
    decreases points.len(),
{
    if points.len() == 0 {
        Seq::empty()
    } else {
        insert_by_time(sort_by_time(points.drop_last()), points.last())
    }
}

/// The label of the owner of a point: the bytes of the UTF-8 form of its `trace_id`.
pub open spec fn label(point: PointWithId) -> Seq<u8> {
    encode_utf8(point.trace_id@)
}

/// Whether `a` comes before `b` byte by byte: at the first place where the two differ `a`
/// has the smaller byte, or `a` ends there and `b` does not.
pub open spec fn bytes_before(a: Seq<u8>, b: Seq<u8>) -> bool
    decreases a.len(),
{
    if b.len() == 0 {
        false
    } else if a.len() == 0 {
        true
    } else if a[0] != b[0] {
        a[0] < b[0]
    } else {
        bytes_before(a.drop_first(), b.drop_first())
    }
}

/// Whether `a` has to come before `b` wherever the two stand: it is the earlier of the
/// two, or it is of the same instant and its owner has the smaller label.
pub open spec fn comes_before(a: PointWithId, b: PointWithId) -> bool {
    a.timestamp < b.timestamp || (a.timestamp == b.timestamp && bytes_before(
        label(a),
        label(b),
    ))
}

/// Two sequences interleaved by time. Of two points of one instant, the one whose owner
/// has the smaller label comes first; only where both have one owner, the one of `first`
/// does.
pub open spec fn merge_by_time(first: Seq<PointWithId>, second: Seq<PointWithId>) -> Seq<
    PointWithId,
>
    decreases first.len() + second.len(),
{
    if first.len() == 0 {
        second
    } else if second.len() == 0 {
        first
    } else if !comes_before(second[0], first[0]) {
        seq![first[0]] + merge_by_time(first.drop_first(), second)
    } else {
        seq![second[0]] + merge_by_time(first, second.drop_first())
    }
}

/// The two sequences can be told apart: no point of `first` shares both its instant and
/// its owner with a point of `second`.
pub open spec fn told_apart(first: Seq<PointWithId>, second: Seq<PointWithId>) -> bool {
    forall|i: int, j: int|
        0 <= i < first.len() && 0 <= j < second.len() && first[i].timestamp
            == second[j].timestamp ==> first[i].trace_id@ != second[j].trace_id@
}

/// No point of `first` has the owner of a point of `second`.
pub open spec fn different_owners(first: Seq<PointWithId>, second: Seq<PointWithId>) -> bool {
    forall|i: int, j: int|
        0 <= i < first.len() && 0 <= j < second.len() ==> first[i].trace_id@
            != second[j].trace_id@
}

/// Of two different byte sequences exactly one comes before the other, and none comes
/// before itself.
pub proof fn lemma_bytes_before(a: Seq<u8>, b: Seq<u8>)
    ensures
        a == b ==> !bytes_before(a, b),
        a != b ==> bytes_before(a, b) != bytes_before(b, a),
    decreases a.len(),
{
    if a.len() == 0 || b.len() == 0 {
        if a.len() == 0 && b.len() == 0 {
            assert(a =~= b);
        }
    } else if a[0] != b[0] {
    } else {
        lemma_bytes_before(a.drop_first(), b.drop_first());
        assert(a =~= seq![a[0]] + a.drop_first());
        assert(b =~= seq![b[0]] + b.drop_first());
    }
}

/// Points of different owners have different labels.
pub proof fn lemma_label(a: PointWithId, b: PointWithId)
    ensures
        a.trace_id@ != b.trace_id@ ==> label(a) != label(b),
{
    encode_utf8_decode_utf8(a.trace_id@);
    encode_utf8_decode_utf8(b.trace_id@);
}

/// Inserting at the place the scan from the back finds is inserting by time.
proof fn lemma_insert_at(sorted: Seq<PointWithId>, point: PointWithId, at: int)
    requires
        0 <= at <= sorted.len(),
        forall|k: int| at <= k < sorted.len() ==> sorted[k].timestamp > point.timestamp,
        at > 0 ==> sorted[at - 1].timestamp <= point.timestamp,
    ensures
        insert_by_time(sorted, point) == sorted.insert(at, point),
    decreases sorted.len() - at,
{
    if sorted.len() == 0 {
        assert(sorted.insert(at, point) =~= seq![point]);
    } else if at == sorted.len() {
        assert(sorted.insert(at, point) =~= sorted.push(point));
    } else {
        let rest = sorted.drop_last();
        lemma_insert_at(rest, point, at);
        assert(rest.insert(at, point).push(sorted.last()) =~= sorted.insert(at, point));
    }
}

/// Inserting by time adds one point and keeps a sorted sequence sorted.
pub proof fn lemma_insert_sorted(sorted: Seq<PointWithId>, point: PointWithId)
    requires
        sorted_by_time(sorted),
    ensures
        sorted_by_time(insert_by_time(sorted, point)),
        insert_by_time(sorted, point).len() == sorted.len() + 1,
        insert_by_time(sorted, point).to_multiset() == sorted.to_multiset().insert(point),
    decreases sorted.len(),
{
    broadcast use vstd::seq_lib::to_multiset_build;

    if sorted.len() == 0 {
        assert(seq![point] =~= Seq::<PointWithId>::empty().push(point));
        assert(sorted =~= Seq::<PointWithId>::empty());
    } else if sorted.last().timestamp <= point.timestamp {
    } else {
        let rest = sorted.drop_last();
        assert(sorted_by_time(rest));
        lemma_insert_sorted(rest, point);
        let inner = insert_by_time(rest, point);
        let out = inner.push(sorted.last());
        assert forall|i: int, j: int| 0 <= i <= j < out.len() implies out[i].timestamp
            <= out[j].timestamp by {
            if j < inner.len() {
            } else if i < inner.len() {
                // every point of `inner` is `point` or a point of `rest`
                assert(inner.to_multiset().count(inner[i]) > 0) by {
                    inner.to_multiset_ensures();
                    assert(inner.contains(inner[i]));
                }
                if inner[i] == point {
                } else {
                    assert(rest.to_multiset().count(inner[i]) > 0);
                    rest.to_multiset_ensures();
                    assert(rest.contains(inner[i]));
                    let k = choose|k: int| 0 <= k < rest.len() && rest[k] == inner[i];
                    assert(sorted[k].timestamp <= sorted[sorted.len() - 1].timestamp);
                }
            }
        }
        assert(sorted =~= rest.push(sorted.last()));
        assert(out.to_multiset() =~= sorted.to_multiset().insert(point));
    }
}

/// Sorting yields a sorted arrangement of the very same points.
pub proof fn lemma_sort_by_time(points: Seq<PointWithId>)
    ensures
        sorted_by_time(sort_by_time(points)),
        sort_by_time(points).len() == points.len(),
        sort_by_time(points).to_multiset() == points.to_multiset(),
    decreases points.len(),
{
    broadcast use vstd::seq_lib::to_multiset_build;

    if points.len() == 0 {
        assert(points =~= Seq::<PointWithId>::empty());
    } else {
        lemma_sort_by_time(points.drop_last());
        lemma_insert_sorted(sort_by_time(points.drop_last()), points.last());
        assert(points =~= points.drop_last().push(points.last()));
    }
}

/// A sequence that is already sorted is left as it is.
pub proof fn lemma_sort_of_sorted(points: Seq<PointWithId>)
    requires
        sorted_by_time(points),
    ensures
        sort_by_time(points) == points,
    decreases points.len(),
{
    if points.len() > 0 {
        let rest = points.drop_last();
        assert(sorted_by_time(rest));
        lemma_sort_of_sorted(rest);
        if rest.len() > 0 {
            assert(rest.last() == points[points.len() - 2]);
        }
        assert(rest.push(points.last()) =~= points);
    }
}

/// The merge holds every point of both sequences, and is sorted when both are.
pub proof fn lemma_merge_by_time(first: Seq<PointWithId>, second: Seq<PointWithId>)
    ensures
        merge_by_time(first, second).len() == first.len() + second.len(),
        merge_by_time(first, second).to_multiset() == first.to_multiset().add(
            second.to_multiset(),
        ),
        sorted_by_time(first) && sorted_by_time(second) ==> sorted_by_time(
            merge_by_time(first, second),
        ),
        first.len() + second.len() > 0 ==> merge_by_time(first, second)[0] == (if first.len() == 0
            || (second.len() > 0 && comes_before(second[0], first[0])) {
            second[0]
        } else {
            first[0]
        }),
    decreases first.len() + second.len(),
{
    broadcast use vstd::seq_lib::lemma_multiset_commutative;

    if first.len() == 0 {
        vstd::seq_lib::lemma_multiset_commutative(first, second);
        assert(first + second =~= second);
    } else if second.len() == 0 {
        vstd::seq_lib::lemma_multiset_commutative(first, second);
        assert(first + second =~= first);
    } else if !comes_before(second[0], first[0]) {
        let rest = first.drop_first();
        lemma_merge_by_time(rest, second);
        let tail = merge_by_time(rest, second);
        let out = seq![first[0]] + tail;
        assert(first =~= seq![first[0]] + rest);
        assert(out.to_multiset() =~= first.to_multiset().add(second.to_multiset()));
        if sorted_by_time(first) && sorted_by_time(second) {
            assert(sorted_by_time(rest)) by {
                assert forall|i: int, j: int| 0 <= i <= j < rest.len() implies rest[i].timestamp
                    <= rest[j].timestamp by {
                    assert(rest[i] == first[i + 1] && rest[j] == first[j + 1]);
                }
            }
            assert forall|i: int, j: int| 0 <= i <= j < out.len() implies out[i].timestamp
                <= out[j].timestamp by {
                if i == 0 && j > 0 {
                    lemma_merge_bounded_below(rest, second, first[0].timestamp as int, j - 1);
                } else if i > 0 {
                    assert(out[i] == tail[i - 1] && out[j] == tail[j - 1]);
                }
            }
        }
    } else {
        let rest = second.drop_first();
        lemma_merge_by_time(first, rest);
        let tail = merge_by_time(first, rest);
        let out = seq![second[0]] + tail;
        assert(second =~= seq![second[0]] + rest);
        assert(out.to_multiset() =~= first.to_multiset().add(second.to_multiset()));
        if sorted_by_time(first) && sorted_by_time(second) {
            assert(sorted_by_time(rest)) by {
                assert forall|i: int, j: int| 0 <= i <= j < rest.len() implies rest[i].timestamp
                    <= rest[j].timestamp by {
                    assert(rest[i] == second[i + 1] && rest[j] == second[j + 1]);
                }
            }
            assert forall|i: int, j: int| 0 <= i <= j < out.len() implies out[i].timestamp
                <= out[j].timestamp by {
                if i == 0 && j > 0 {
                    lemma_merge_bounded_below(first, rest, second[0].timestamp as int, j - 1);
                } else if i > 0 {
                    assert(out[i] == tail[i - 1] && out[j] == tail[j - 1]);
                }
            }
        }
    }
}

/// A lower bound on the instants of both sequences bounds the instants of their merge.
proof fn lemma_merge_bounded_below(
    first: Seq<PointWithId>,
    second: Seq<PointWithId>,
    bound: int,
    at: int,
)
    requires
        sorted_by_time(first),
        sorted_by_time(second),
        first.len() > 0 ==> bound <= first[0].timestamp,
        second.len() > 0 ==> bound <= second[0].timestamp,
        0 <= at < merge_by_time(first, second).len(),
    ensures
        bound <= merge_by_time(first, second)[at].timestamp,
    decreases first.len() + second.len(),
{
    if first.len() == 0 {
        assert(second[0].timestamp <= second[at].timestamp);
    } else if second.len() == 0 {
        assert(first[0].timestamp <= first[at].timestamp);
    } else if !comes_before(second[0], first[0]) {
        if at > 0 {
            let rest = first.drop_first();
            assert(sorted_by_time(rest)) by {
                assert forall|i: int, j: int| 0 <= i <= j < rest.len() implies rest[i].timestamp
                    <= rest[j].timestamp by {
                    assert(rest[i] == first[i + 1] && rest[j] == first[j + 1]);
                }
            }
            if rest.len() > 0 {
                assert(first[0].timestamp <= first[1].timestamp);
            }
            lemma_merge_bounded_below(rest, second, bound, at - 1);
        }
    } else {
        if at > 0 {
            let rest = second.drop_first();
            assert(sorted_by_time(rest)) by {
                assert forall|i: int, j: int| 0 <= i <= j < rest.len() implies rest[i].timestamp
                    <= rest[j].timestamp by {
                    assert(rest[i] == second[i + 1] && rest[j] == second[j + 1]);
                }
            }
            if rest.len() > 0 {
                assert(second[0].timestamp <= second[1].timestamp);
            }
            lemma_merge_bounded_below(first, rest, bound, at - 1);
        }
    }
}

/// Where the two sequences can be told apart, it does not matter which of them is named
/// first: the merge is the same.
pub proof fn lemma_merge_commutes(first: Seq<PointWithId>, second: Seq<PointWithId>)
    requires
        told_apart(first, second),
    ensures
        merge_by_time(first, second) == merge_by_time(second, first),
    decreases first.len() + second.len(),
{
    if first.len() == 0 || second.len() == 0 {
    } else {
        lemma_bytes_before(label(first[0]), label(second[0]));
        lemma_label(first[0], second[0]);
        if !comes_before(second[0], first[0]) {
            assert(comes_before(first[0], second[0]));
            let rest = first.drop_first();
            assert(told_apart(rest, second)) by {
                assert forall|i: int, j: int|
                    0 <= i < rest.len() && 0 <= j < second.len() && rest[i].timestamp
                        == second[j].timestamp implies rest[i].trace_id@
                    != second[j].trace_id@ by {
                    assert(rest[i] == first[i + 1]);
                }
            }
            lemma_merge_commutes(rest, second);
        } else {
            assert(!comes_before(first[0], second[0]));
            let rest = second.drop_first();
            assert(told_apart(first, rest)) by {
                assert forall|i: int, j: int|
                    0 <= i < first.len() && 0 <= j < rest.len() && first[i].timestamp
                        == rest[j].timestamp implies first[i].trace_id@ != rest[j].trace_id@ by {
                    assert(rest[j] == second[j + 1]);
                }
            }
            lemma_merge_commutes(first, rest);
        }
    }
}

/// Every point of the sorted sequence is a point of the sequence that was sorted.
pub proof fn lemma_sorted_point(points: Seq<PointWithId>, at: int)
    requires
        0 <= at < sort_by_time(points).len(),
    ensures
        points.contains(sort_by_time(points)[at]),
{
    let sorted = sort_by_time(points);
    lemma_sort_by_time(points);
    sorted.to_multiset_ensures();
    points.to_multiset_ensures();
    assert(sorted.contains(sorted[at]));
    assert(sorted.to_multiset().count(sorted[at]) > 0);
    assert(points.to_multiset().count(sorted[at]) > 0);
}

/// Sequences that can be told apart can still be told apart when each is sorted.
pub proof fn lemma_sorted_told_apart(first: Seq<PointWithId>, second: Seq<PointWithId>)
    requires
        told_apart(first, second),
    ensures
        told_apart(sort_by_time(first), sort_by_time(second)),
{
    let a = sort_by_time(first);
    let b = sort_by_time(second);
    assert forall|i: int, j: int|
        0 <= i < a.len() && 0 <= j < b.len() && a[i].timestamp
            == b[j].timestamp implies a[i].trace_id@ != b[j].trace_id@ by {
        lemma_sorted_point(first, i);
        lemma_sorted_point(second, j);
        let k = choose|k: int| 0 <= k < first.len() && first[k] == a[i];
        let l = choose|l: int| 0 <= l < second.len() && second[l] == b[j];
        assert(first[k].timestamp == second[l].timestamp);
    }
}

/// Whether `a` comes before `b` byte by byte.
fn bytes_go_before(a: &[u8], b: &[u8]) -> (before: bool)
    ensures
        before == bytes_before(a@, b@),
{
    let mut i: usize = 0;
    proof {
        assert(a@.skip(0) =~= a@);
        assert(b@.skip(0) =~= b@);
    }
    while i < a.len() && i < b.len()
        invariant
            i <= a@.len(),
            i <= b@.len(),
            bytes_before(a@, b@) == bytes_before(a@.skip(i as int), b@.skip(i as int)),
        decreases a.len() - i,
    {
        let ghost rest_a = a@.skip(i as int);
        let ghost rest_b = b@.skip(i as int);
        assert(rest_a[0] == a@[i as int] && rest_b[0] == b@[i as int]);
        if a[i] != b[i] {
            return a[i] < b[i];
        }
        proof {
            assert(rest_a.drop_first() =~= a@.skip(i + 1));
            assert(rest_b.drop_first() =~= b@.skip(i + 1));
        }
        i += 1;
    }
    i < b.len()
}

/// Whether `a` has to come before `b` wherever the two stand.
pub fn goes_before(a: &PointWithId, b: &PointWithId) -> (before: bool)
    ensures
        before == comes_before(*a, *b),
{
    if a.timestamp != b.timestamp {
        return a.timestamp < b.timestamp;
    }
    bytes_go_before(a.trace_id.as_str().as_bytes(), b.trace_id.as_str().as_bytes())
}

/// The points of `points`, in ascending order of time; points of one instant keep their
/// order.
pub fn sorted_points(points: &Vec<PointWithId>) -> (sorted: Vec<PointWithId>)
    ensures
        sorted@ == sort_by_time(points@),
        sorted_by_time(sorted@),
        sorted@.len() == points@.len(),
        sorted@.to_multiset() == points@.to_multiset(),
{
    let mut sorted: Vec<PointWithId> = Vec::new();
    let mut next: usize = 0;
    while next < points.len()
        invariant
            next <= points.len(),
            sorted@ == sort_by_time(points@.take(next as int)),
        decreases points.len() - next,
    {
        let point = points[next].duplicate();
        let mut at: usize = sorted.len();
        while at > 0 && sorted[at - 1].timestamp > point.timestamp
            invariant
                at <= sorted.len(),
                forall|k: int| at <= k < sorted.len() ==> sorted[k].timestamp > point.timestamp,
            decreases at,
        {
            at -= 1;
        }
        proof {
            lemma_insert_at(sorted@, point, at as int);
            assert(points@.take(next + 1).drop_last() =~= points@.take(next as int));
        }
        sorted.insert(at, point);
        next += 1;
    }
    proof {
        assert(points@.take(next as int) =~= points@);
        lemma_sort_by_time(points@);
    }
    sorted
}

/// The points of both sequences interleaved by time. Of two points of one instant, the
/// one whose owner has the smaller label comes first; only where both have one owner,
/// the one of `first` does.
pub fn merged_points(first: &Vec<PointWithId>, second: &Vec<PointWithId>) -> (merged: Vec<
    PointWithId,
>)
    ensures
        merged@ == merge_by_time(first@, second@),
        merged@.len() == first@.len() + second@.len(),
        merged@.to_multiset() == first@.to_multiset().add(second@.to_multiset()),
        sorted_by_time(first@) && sorted_by_time(second@) ==> sorted_by_time(merged@),
{
    let mut merged: Vec<PointWithId> = Vec::new();
    let mut i: usize = 0;
    let mut j: usize = 0;
    proof {
        assert(first@.skip(0) =~= first@);
        assert(second@.skip(0) =~= second@);
        assert(merged@ + merge_by_time(first@, second@) =~= merge_by_time(first@, second@));
    }
    while i < first.len() || j < second.len()
        invariant
            i <= first.len(),
            j <= second.len(),
            merged@ + merge_by_time(first@.skip(i as int), second@.skip(j as int))
                == merge_by_time(first@, second@),
        decreases (first.len() - i) + (second.len() - j),
    {
        let ghost rest_first = first@.skip(i as int);
        let ghost rest_second = second@.skip(j as int);
        let ghost before = merged@;
        let take_first: bool = if i >= first.len() {
            false
        } else if j >= second.len() {
            true
        } else {
            !goes_before(&second[j], &first[i])
        };
        if take_first {
            merged.push(first[i].duplicate());
            i += 1;
            proof {
                assert(rest_first.drop_first() =~= first@.skip(i as int));
                let tail = merge_by_time(first@.skip(i as int), rest_second);
                assert(merge_by_time(rest_first, rest_second) =~= seq![rest_first[0]] + tail);
                assert(merged@ + tail =~= before + (seq![rest_first[0]] + tail));
            }
        } else {
            merged.push(second[j].duplicate());
            j += 1;
            proof {
                assert(rest_second.drop_first() =~= second@.skip(j as int));
                let tail = merge_by_time(rest_first, second@.skip(j as int));
                assert(merge_by_time(rest_first, rest_second) =~= seq![rest_second[0]] + tail);
                assert(merged@ + tail =~= before + (seq![rest_second[0]] + tail));
            }
        }
    }
    proof {
        assert(first@.skip(i as int) =~= Seq::<PointWithId>::empty());
        assert(merged@ + Seq::<PointWithId>::empty() =~= merged@);
        lemma_merge_by_time(first@, second@);
    }
    merged
}

} // verus!

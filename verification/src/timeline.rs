//! The times at which the segments of a playlist start.

use vstd::prelude::*;

use crate::hls::{segment_views, Segment, SegmentView};
use crate::time::{span_nanos, to_nanos, Timestamp, FAR, SECOND};

verus! {

/// The point in time that a segment's own tag names.
pub open spec fn date_time_of(segment: SegmentView) -> Option<Timestamp> {
    match segment.program_date_time {
        Some(text) => Timestamp::spec_parse(text),
        None => None,
    }
}

fn read_date_time(segment: &Segment) -> (r: Option<Timestamp>)
    ensures
        r == date_time_of(segment@),
        r matches Some(t) ==> t.is_near(),
{
    match &segment.program_date_time {
        Some(text) => Timestamp::parse(text.as_str()),
        None => None,
    }
}

/// The first date and time tag that can be read, in the order of the segments.
pub open spec fn first_date_time(segments: Seq<SegmentView>) -> Option<Timestamp>
    decreases segments.len(),
{
    if segments.len() == 0 {
        None
    } else if date_time_of(segments[0]) is Some {
        date_time_of(segments[0])
    } else {
        first_date_time(segments.skip(1))
    }
}

pub fn find_program_datetime_tag(segments: &Vec<Segment>) -> (r: Option<Timestamp>)
    ensures
        r == first_date_time(segment_views(segments@)),
        r matches Some(t) ==> t.is_near(),
{
    let ghost views = segment_views(segments@);
    assert(views.skip(0) == views);
    for i in 0..segments.len()
        invariant
            views == segment_views(segments@),
            first_date_time(views) == first_date_time(views.skip(i as int)),
    {
        let found = read_date_time(&segments[i]);
        assert(views.skip(i as int)[0] == segments@[i as int]@);
        assert(views.skip(i as int).skip(1) == views.skip(i + 1));
        if found.is_some() {
            return found;
        }
    }
    None
}

/// How long segments last together, in nanoseconds.
pub open spec fn total_nanos(segments: Seq<SegmentView>) -> int
    decreases segments.len(),
{
    if segments.len() == 0 {
        0
    } else {
        total_nanos(segments.drop_last()) + span_nanos(segments.last().duration)
    }
}

/// How long segments last together, each rounded down to whole seconds.
pub open spec fn total_seconds(segments: Seq<SegmentView>) -> int
    decreases segments.len(),
{
    if segments.len() == 0 {
        0
    } else {
        total_seconds(segments.drop_last()) + segments.last().duration.secs
    }
}

/// Whether the segments span a length of time that can be reckoned with. It is
/// more than the years that a date can have.
pub open spec fn measurable(segments: Seq<SegmentView>) -> bool {
    total_nanos(segments) <= FAR
}

pub proof fn lemma_total_prefix(segments: Seq<SegmentView>, k: int)
    requires
        0 <= k <= segments.len(),
    ensures
        0 <= total_nanos(segments.take(k)) <= total_nanos(segments),
        0 <= total_seconds(segments.take(k)) <= total_seconds(segments),
        total_seconds(segments.take(k)) * SECOND <= total_nanos(segments.take(k)),
    decreases segments.len() + k,
{
    if k > 0 {
        let before = segments.take(k);
        assert(before.drop_last() == segments.take(k - 1));
        lemma_total_prefix(segments, k - 1);
        let d = span_nanos(before.last().duration);
        assert(0 <= d);
    } else {
        assert(segments.take(0) =~= seq![]);
    }
    if k < segments.len() {
        lemma_total_prefix(segments.drop_last(), k);
        assert(segments.drop_last().take(k) == segments.take(k));
        assert(0 <= span_nanos(segments.last().duration));
    } else {
        assert(segments.take(k) == segments);
    }
}

pub proof fn lemma_total_same(a: Seq<SegmentView>, b: Seq<SegmentView>)
    requires
        a.len() == b.len(),
        forall|i: int| 0 <= i < a.len() ==> (#[trigger] a[i]).duration == b[i].duration,
    ensures
        total_nanos(a) == total_nanos(b),
    decreases a.len(),
{
    if a.len() > 0 {
        assert forall|i: int| 0 <= i < a.len() - 1 implies (
        #[trigger] a.drop_last()[i]).duration == b.drop_last()[i].duration by {
            assert(a.drop_last()[i] == a[i]);
        }
        lemma_total_same(a.drop_last(), b.drop_last());
        assert(a[a.len() - 1].duration == b[a.len() - 1].duration);
    }
}

pub fn is_measurable(segments: &Vec<Segment>) -> (r: bool)
    ensures
        r == measurable(segment_views(segments@)),
{
    let ghost views = segment_views(segments@);
    let mut sum: i128 = 0;
    assert(views.take(0) == Seq::<SegmentView>::empty());
    for i in 0..segments.len()
        invariant
            views == segment_views(segments@),
            sum == total_nanos(views.take(i as int)),
            0 <= sum <= FAR,
    {
        assert(views.take(i + 1).drop_last() == views.take(i as int));
        assert(views.take(i + 1).last() == segments@[i as int]@);
        sum = sum + to_nanos(segments[i].duration);
        proof {
            lemma_total_prefix(views, i + 1);
        }
        if sum > FAR {
            return false;
        }
    }
    assert(views.take(views.len() as int) == views);
    true
}

/// The time at which segment `i` starts: what its own tag says; else the end
/// of the segment before it; for the first segment else `first`.
pub open spec fn expected_time(segments: Seq<SegmentView>, first: int, i: int) -> int
    decreases i,
{
    match date_time_of(segments[i]) {
        Some(t) => t.nanos as int,
        None => if i <= 0 {
            first
        } else {
            expected_time(segments, first, i - 1) + span_nanos(segments[i - 1].duration)
        },
    }
}

/// The times at which the segments start.
pub open spec fn expected_times(segments: Seq<SegmentView>, first: int) -> Seq<int> {
    Seq::new(segments.len(), |i: int| expected_time(segments, first, i))
}

pub open spec fn time_views(v: Seq<Timestamp>) -> Seq<int> {
    v.map_values(|t: Timestamp| t.nanos as int)
}

pub fn calculate_expected_program_date_time_list(
    segments: &Vec<Segment>,
    first: Timestamp,
) -> (r: Vec<Timestamp>)
    requires
        measurable(segment_views(segments@)),
        -2 * FAR <= first.nanos <= FAR,
    ensures
        time_views(r@) == expected_times(segment_views(segments@), first.nanos as int),
        forall|i: int| 0 <= i < r@.len() ==> -2 * FAR <= (#[trigger] r@[i]).nanos <= 2 * FAR,
{
    let ghost views = segment_views(segments@);
    let mut r: Vec<Timestamp> = Vec::new();
    for i in 0..segments.len()
        invariant
            views == segment_views(segments@),
            measurable(views),
            -2 * FAR <= first.nanos <= FAR,
            r@.len() == i,
            forall|k: int|
                0 <= k < i ==> (#[trigger] r@[k]).nanos == expected_time(
                    views,
                    first.nanos as int,
                    k,
                ) && -2 * FAR <= r@[k].nanos <= FAR + total_nanos(views.take(k)),
    {
        assert(views[i as int] == segments@[i as int]@);
        proof {
            lemma_total_prefix(views, i as int);
        }
        let time = match read_date_time(&segments[i]) {
            Some(t) => t,
            None => if i == 0 {
                first
            } else {
                proof {
                    assert(views.take(i as int).drop_last() == views.take(i - 1));
                    assert(views.take(i as int).last() == segments@[i - 1]@);
                }
                Timestamp { nanos: r[i - 1].nanos + to_nanos(segments[i - 1].duration) }
            },
        };
        r.push(time);
    }
    proof {
        assert(time_views(r@) =~= expected_times(views, first.nanos as int));
        assert forall|i: int| 0 <= i < r@.len() implies -2 * FAR <= (#[trigger] r@[i]).nanos <= 2
            * FAR by {
            lemma_total_prefix(views, i);
        }
    }
    r
}

} // verus!

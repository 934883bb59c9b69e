//! Laws of breaks: when segments start, where breaks are put, how long they
//! stay, and what the present of a stream is.

use vstd::prelude::*;

use crate::config::{is_label_char, skip_control, valid_label, InsertionMode, ServerConfig};
use crate::commands::{command_of, last_number, InsertionCommand};
use crate::hls::{spec_read_media, AttributeView, DateRangeView, MediaView, PlaylistKind,
    SegmentView, Span};
use crate::interstitials::{are_candidates, begins_at, dated_segments, every_slot_finds_its_segment, interstitial,
    is_dated, is_inserted, is_placed, lemma_placements_prefix, lengths,
    placed_slots_begin_at_their_segment, placements, remaining_slots, takes_interstitials,
    times_of, window_start};
use crate::live_edge::{refreshed, seen_live_edge, stream_now};
use crate::media::{can_serve, is_served};
use crate::slots::{has_own_ids, is_static_schedule, lists, static_slot, static_slots, AdSlot};
use crate::text::{decimal, parsed_u64};
use crate::time::{millis_text, read_time, Timestamp};
use crate::timeline::{date_time_of, expected_time, first_date_time, measurable, total_nanos};

verus! {

/// The point in time that a segment's own tag tells, in nanoseconds since the
/// Unix epoch.
pub open spec fn told(segment: SegmentView) -> Option<int> {
    match segment.program_date_time {
        Some(text) => match read_time(text) {
            Some((secs, nanos)) => Some(secs * 1_000_000_000 + nanos),
            None => None,
        },
        None => None,
    }
}

/// How long a segment lasts, in nanoseconds.
pub open spec fn length(segment: SegmentView) -> int {
    segment.duration.secs * 1_000_000_000 + segment.duration.nanos
}

/// Whether `k` is the first segment whose tag tells a point in time.
pub open spec fn is_first_told(segments: Seq<SegmentView>, k: int) -> bool {
    &&& 0 <= k < segments.len()
    &&& told(segments[k]) is Some
    &&& forall|j: int| 0 <= j < k ==> told(#[trigger] segments[j]) is None
}

/// Whether `times` are the times at which segments start: a segment with a tag
/// starts when it tells; one without starts exactly where the one before it
/// ends; the first one without starts when the first tag tells.
pub open spec fn is_timeline(segments: Seq<SegmentView>, times: Seq<int>) -> bool {
    &&& times.len() == segments.len()
    &&& forall|i: int|
        0 <= i < segments.len() ==> (told(segments[i]) matches Some(t) ==> #[trigger] times[i]
            == t)
    &&& forall|i: int, k: int|
        0 <= k && i == k + 1 && i < segments.len() && told(segments[i]) is None
            ==> #[trigger] times[i] == #[trigger] times[k] + length(segments[k])
    &&& forall|k: int|
        #[trigger] is_first_told(segments, k) && told(segments[0]) is None ==> times[0] == told(
            segments[k],
        )->0
}

proof fn lemma_told(segment: SegmentView)
    ensures
        date_time_of(segment) matches Some(t) ==> told(segment) == Some(t.nanos as int),
        date_time_of(segment) is None ==> told(segment) is None,
{
}

proof fn lemma_first_told(segments: Seq<SegmentView>)
    ensures
        match first_date_time(segments) {
            Some(t) => exists|k: int| #[trigger]
                is_first_told(segments, k) && told(segments[k]) == Some(t.nanos as int),
            None => forall|k: int|
                0 <= k < segments.len() ==> told(#[trigger] segments[k]) is None,
        },
    decreases segments.len(),
{
    if segments.len() > 0 {
        lemma_told(segments[0]);
        if date_time_of(segments[0]) is Some {
            assert(is_first_told(segments, 0));
        } else {
            let rest = segments.skip(1);
            lemma_first_told(rest);
            if first_date_time(segments) is Some {
                let k = choose|k: int| #[trigger]
                    is_first_told(rest, k) && told(rest[k]) == Some(
                        first_date_time(segments)->0.nanos as int,
                    );
                assert(segments[k + 1] == rest[k]);
                assert forall|j: int| 0 <= j < k + 1 implies told(#[trigger] segments[j]) is None by {
                    if j > 0 {
                        assert(rest[j - 1] == segments[j]);
                    }
                }
                assert(is_first_told(segments, k + 1));
            } else {
                assert forall|k: int| 0 <= k < segments.len() implies told(
                    #[trigger] segments[k],
                ) is None by {
                    if k > 0 {
                        assert(rest[k - 1] == segments[k]);
                    }
                }
            }
        }
    }
}

/// The window of a playlist is dated by the first tag that can be read, and by
/// no later one. A playlist in which none can be read is not dated.
pub proof fn the_first_tag_dates_the_window(m: MediaView)
    ensures
        is_dated(m) <==> exists|k: int|
            0 <= k < m.segments.len() && told(#[trigger] m.segments[k]) is Some,
        forall|k: int| #[trigger]
            is_first_told(m.segments, k) ==> window_start(m) == told(m.segments[k])->0,
{
    lemma_first_told(m.segments);
    if is_dated(m) {
        let t = first_date_time(m.segments)->0;
        let k = choose|k: int| #[trigger]
            is_first_told(m.segments, k) && told(m.segments[k]) == Some(t.nanos as int);
        assert forall|j: int| #[trigger] is_first_told(m.segments, j) implies window_start(m)
            == told(m.segments[j])->0 by {
            if j < k {
                assert(told(m.segments[j]) is None);
            } else if k < j {
                assert(told(m.segments[k]) is None);
            }
        }
    }
}

/// The segments of a dated playlist follow each other without a gap: a segment
/// without a tag starts where the one before it ends, to the nanosecond.
pub proof fn segments_follow_each_other(m: MediaView)
    requires
        is_dated(m),
    ensures
        is_timeline(m.segments, times_of(m)),
{
    let times = times_of(m);
    let first = window_start(m);
    assert forall|i: int| 0 <= i < m.segments.len() implies (told(m.segments[i]) matches Some(t)
        ==> #[trigger] times[i] == t) by {
        lemma_told(m.segments[i]);
    }
    assert forall|i: int, k: int|
        0 <= k && i == k + 1 && i < m.segments.len() && told(
            m.segments[i],
        ) is None implies #[trigger] times[i] == #[trigger] times[k] + length(m.segments[k]) by {
        lemma_told(m.segments[i]);
        assert(times[i] == expected_time(m.segments, first, i));
    }
    assert forall|k: int|
        #[trigger] is_first_told(m.segments, k) && told(m.segments[0]) is None implies times[0]
        == told(m.segments[k])->0 by {
        the_first_tag_dates_the_window(m);
        lemma_told(m.segments[0]);
    }
}

/// There is only one such timeline.
proof fn lemma_timeline(m: MediaView, times: Seq<int>)
    requires
        is_dated(m),
        is_timeline(m.segments, times),
    ensures
        times == times_of(m),
{
    segments_follow_each_other(m);
    lemma_first_told(m.segments);
    let own = times_of(m);
    assert forall|i: int| 0 <= i < times.len() implies times[i] == own[i] by {
        lemma_same_time(m, times, i);
    }
    assert(times =~= own);
}

proof fn lemma_same_time(m: MediaView, times: Seq<int>, i: int)
    requires
        is_dated(m),
        is_timeline(m.segments, times),
        is_timeline(m.segments, times_of(m)),
        0 <= i < times.len(),
    ensures
        times[i] == times_of(m)[i],
    decreases i,
{
    lemma_first_told(m.segments);
    if told(m.segments[i]) is None {
        if i > 0 {
            lemma_same_time(m, times, i - 1);
            assert(times[i] == times[i - 1] + length(m.segments[i - 1]));
            assert(times_of(m)[i] == times_of(m)[i - 1] + length(m.segments[i - 1]));
        } else {
            let t = first_date_time(m.segments)->0;
            let k = choose|k: int| #[trigger]
                is_first_told(m.segments, k) && told(m.segments[k]) == Some(t.nanos as int);
            assert(is_first_told(m.segments, k));
        }
    }
}

/// Where only the first segment has a tag, every segment starts that point in
/// time plus the exact lengths of the segments before it, summed up in `sums`.
pub proof fn untagged_segments_are_summed_up(m: MediaView, sums: Seq<int>, i: int)
    requires
        0 <= i < m.segments.len(),
        told(m.segments[0]) is Some,
        forall|k: int| 0 < k <= i ==> told(#[trigger] m.segments[k]) is None,
        sums.len() == m.segments.len(),
        sums[0] == 0,
        forall|k: int, n: int|
            0 <= k && n == k + 1 && n < sums.len() ==> #[trigger] sums[n] == #[trigger] sums[k]
                + m.segments[k].duration.secs * 1_000_000_000 + m.segments[k].duration.nanos,
    ensures
        times_of(m)[i] == told(m.segments[0])->0 + sums[i],
    decreases i,
{
    assert(is_first_told(m.segments, 0));
    the_first_tag_dates_the_window(m);
    segments_follow_each_other(m);
    if i > 0 {
        untagged_segments_are_summed_up(m, sums, i - 1);
        assert(told(m.segments[i]) is None);
        assert(times_of(m)[i] == times_of(m)[i - 1] + length(m.segments[i - 1]));
        assert(sums[i] == sums[i - 1] + m.segments[i - 1].duration.secs * 1_000_000_000
            + m.segments[i - 1].duration.nanos);
    }
}

/// Whether a break of `duration` seconds offers a skip button: one is
/// configured that appears before the break ends.
pub open spec fn offers_skip(config: ServerConfig, duration: u64) -> bool {
    config.skip_control_offset matches Some(offset) && offset < duration
}

/// Whether a label for the skip button is configured that can be used: letters
/// of ASCII, hyphens and underscores, at least one.
pub open spec fn has_label(config: ServerConfig) -> bool {
    &&& config.skip_control_label_id matches Some(label)
    &&& label@.len() > 0
    &&& forall|i: int|
        0 <= i < label@.len() ==> 'a' <= #[trigger] label@[i] <= 'z' || 'A' <= label@[i] <= 'Z'
            || label@[i] == '-' || label@[i] == '_'
}

/// The date and time, to the millisecond, at which a break starts, in its time
/// zone; `None` beyond the years that a date can have.
pub open spec fn told_start(slot: AdSlot) -> Option<Seq<char>> {
    let secs = slot.start_time.nanos as int / 1_000_000_000;
    if -8_334_601_142_400 <= secs <= 8_210_266_790_399 {
        Some(
            millis_text(
                secs as i64,
                (slot.start_time.nanos as int % 1_000_000_000) as u32,
                slot.zone,
            ),
        )
    } else {
        None
    }
}

/// Whether a date range tells players of a break: its name, its start and its
/// length, where its ads are listed, what a viewer may do, where the stream
/// goes on after it, and the skip button where there is one.
pub open spec fn tells_of(
    range: DateRangeView,
    slot: AdSlot,
    config: ServerConfig,
    recorded: bool,
) -> bool {
    let name = "ad_slot"@ + decimal(slot.index as nat);
    let offered = offers_skip(config, slot.duration);
    &&& range.id == name
    &&& range.class == Some("com.apple.hls.interstitial"@)
    &&& range.start_date == told_start(slot)
    &&& range.duration == Some(Span { secs: slot.duration, nanos: 0 })
    &&& range.attributes.contains(
        (
            "X-ASSET-LIST"@,
            AttributeView::Text(
                config.interstitials_address@ + "interstitials.m3u8?_HLS_interstitial_id="@ + name,
            ),
        ),
    )
    &&& range.attributes.contains(("X-SNAP"@, AttributeView::Text("IN,OUT"@)))
    &&& range.attributes.contains(
        (
            "X-RESUME-OFFSET"@,
            AttributeView::Number(
                if recorded {
                    0
                } else {
                    slot.duration
                },
            ),
        ),
    )
    &&& range.attributes.contains(
        (
            "X-RESTRICT"@,
            AttributeView::Text(
                if offered {
                    "JUMP"@
                } else {
                    "SKIP,JUMP"@
                },
            ),
        ),
    )
    &&& offered ==> range.attributes.contains(
        ("X-SKIP-CONTROL-OFFSET"@, AttributeView::Number(config.skip_control_offset->0)),
    )
    &&& offered && config.skip_control_duration is Some ==> range.attributes.contains(
        ("X-SKIP-CONTROL-DURATION"@, AttributeView::Number(config.skip_control_duration->0)),
    )
    &&& offered && has_label(config) ==> range.attributes.contains(
        ("X-SKIP-CONTROL-LABEL-ID"@, AttributeView::Text(config.skip_control_label_id->0@)),
    )
    &&& range.attributes.len() == 4 + (if offered {
        1 + (if config.skip_control_duration is Some {
            1int
        } else {
            0
        }) + (if has_label(config) {
            1int
        } else {
            0
        })
    } else {
        0
    })
}

/// The date range of a break tells players of it.
pub proof fn a_range_tells_of_its_break(config: ServerConfig, recorded: bool, slot: AdSlot)
    ensures
        tells_of(interstitial(config, recorded, slot), slot, config, recorded),
{
    let range = interstitial(config, recorded, slot);
    let a = range.attributes;
    let skip = skip_control(config, slot.duration);
    assert(skip is Some <==> offers_skip(config, slot.duration));
    if config.skip_control_label_id is Some {
        let label = config.skip_control_label_id->0@;
        assert(valid_label(label) <==> has_label(config)) by {
            if valid_label(label) {
                assert forall|i: int| 0 <= i < label.len() implies 'a' <= #[trigger] label[i] <= 'z'
                    || 'A' <= label[i] <= 'Z' || label[i] == '-' || label[i] == '_' by {
                    assert(is_label_char(label[i]));
                }
            }
            if has_label(config) {
                assert forall|i: int| 0 <= i < label.len() implies is_label_char(
                    #[trigger] label[i],
                ) by {}
            }
        }
    }
    match skip {
        Some(control) => match (control.duration, control.label_id) {
            (Some(n), Some(label)) => {
                assert(a.len() == 7);
                assert(a[3] == ("X-SKIP-CONTROL-DURATION"@, AttributeView::Number(n)));
                assert(a[4] == ("X-SKIP-CONTROL-LABEL-ID"@, AttributeView::Text(label)));
                assert(a[5].0 == "X-SKIP-CONTROL-OFFSET"@);
                assert(a[6].0 == "X-SNAP"@);
            },
            (Some(n), None) => {
                assert(a.len() == 6);
                assert(a[3] == ("X-SKIP-CONTROL-DURATION"@, AttributeView::Number(n)));
                assert(a[4].0 == "X-SKIP-CONTROL-OFFSET"@);
                assert(a[5].0 == "X-SNAP"@);
            },
            (None, Some(label)) => {
                assert(a.len() == 6);
                assert(a[3] == ("X-SKIP-CONTROL-LABEL-ID"@, AttributeView::Text(label)));
                assert(a[4].0 == "X-SKIP-CONTROL-OFFSET"@);
                assert(a[5].0 == "X-SNAP"@);
            },
            (None, None) => {
                assert(a.len() == 5);
                assert(a[3].0 == "X-SKIP-CONTROL-OFFSET"@);
                assert(a[4].0 == "X-SNAP"@);
            },
        },
        None => {
            assert(a.len() == 4);
            assert(a[3].0 == "X-SNAP"@);
        },
    }
    assert(a[0].0 == "X-ASSET-LIST"@);
    assert(a[1].0 == "X-RESTRICT"@);
    assert(a[2].0 == "X-RESUME-OFFSET"@);
}

/// Every date range that is put into a playlist tells of one of the slots, and
/// stands at a segment that starts with or after that break, and no later than
/// the segment is long.
pub proof fn every_range_stands_where_a_break_begins(
    window: MediaView,
    reply: MediaView,
    config: ServerConfig,
    available: Set<AdSlot>,
    available_after: Set<AdSlot>,
    slots: Seq<AdSlot>,
    zones: Seq<i32>,
    times: Seq<int>,
    i: int,
)
    requires
        takes_interstitials(window, config),
        is_inserted(window, reply, config, available, available_after, slots, zones),
        is_timeline(window.segments, times),
        !window.inserted.contains_key(i),
        reply.inserted.contains_key(i),
    ensures
        0 <= i < window.segments.len(),
        exists|j: int|
            {
                &&& 0 <= j < slots.len()
                &&& (#[trigger] slots[j]).start_time.nanos <= times[i] < slots[j].start_time.nanos
                    + length(window.segments[i])
                &&& tells_of(
                    reply.inserted[i],
                    slots[j],
                    config,
                    window.kind == Some(PlaylistKind::Vod),
                )
            },
{
    lemma_timeline(window, times);
    let n = window.segments.len() as int;
    let placed = placements(slots, times, lengths(window.segments), n);
    lemma_placed_length(slots, times, lengths(window.segments), n);
    let j = placed[i]->0;
    placed_slots_begin_at_their_segment(slots, times, lengths(window.segments), n, i);
    assert(begins_at(slots[j], times[i], lengths(window.segments)[i]));
    a_range_tells_of_its_break(config, window.kind == Some(PlaylistKind::Vod), slots[j]);
}

proof fn lemma_placed_length(slots: Seq<AdSlot>, times: Seq<int>, lengths: Seq<int>, n: int)
    requires
        0 <= n,
    ensures
        placements(slots, times, lengths, n).len() == n,
    decreases n,
{
    if n > 0 {
        lemma_placed_length(slots, times, lengths, n - 1);
    }
}

/// A break that begins at a segment at which no other break begins is put into
/// the playlist, where no two slots share an identifier.
pub proof fn a_break_alone_at_its_segment_is_put_in(
    window: MediaView,
    reply: MediaView,
    config: ServerConfig,
    available: Set<AdSlot>,
    available_after: Set<AdSlot>,
    slots: Seq<AdSlot>,
    zones: Seq<i32>,
    times: Seq<int>,
    i: int,
    j: int,
)
    requires
        takes_interstitials(window, config),
        is_inserted(window, reply, config, available, available_after, slots, zones),
        is_timeline(window.segments, times),
        0 <= i < window.segments.len(),
        0 <= j < slots.len(),
        slots[j].start_time.nanos <= times[i] < slots[j].start_time.nanos + length(
            window.segments[i],
        ),
        forall|k: int|
            0 <= k < slots.len() && k != j ==> !((#[trigger] slots[k]).start_time.nanos <= times[i]
                < slots[k].start_time.nanos + length(window.segments[i])),
        forall|a: int, b: int|
            0 <= a < b < slots.len() ==> (#[trigger] slots[a]).id != (#[trigger] slots[b]).id,
    ensures
        exists|p: int|
            {
                &&& 0 <= p <= i
                &&& slots[j].start_time.nanos <= times[p] < slots[j].start_time.nanos + length(
                    window.segments[p],
                )
                &&& #[trigger] reply.inserted.contains_key(p)
                &&& tells_of(
                    reply.inserted[p],
                    slots[j],
                    config,
                    window.kind == Some(PlaylistKind::Vod),
                )
            },
{
    lemma_timeline(window, times);
    let n = window.segments.len() as int;
    let all = lengths(window.segments);
    let placed = placements(slots, times, all, n);
    let here = placements(slots, times, all, i + 1);
    lemma_placed_length(slots, times, all, n);
    lemma_placed_length(slots, times, all, i + 1);
    every_slot_finds_its_segment(slots, times, all, i + 1, i, j);
    placed_slots_begin_at_their_segment(slots, times, all, i + 1, i);
    lemma_placements_prefix(slots, times, all, i + 1, n);
    let p = if is_placed(slots, here, slots[j].id) {
        let p = choose|p: int|
            0 <= p < here.len() && (#[trigger] here[p]) is Some && slots[here[p]->0].id
                == slots[j].id;
        placed_slots_begin_at_their_segment(slots, times, all, i + 1, p);
        let q = here[p]->0;
        if q < j {
            assert(slots[q].id != slots[j].id);
        } else if j < q {
            assert(slots[j].id != slots[q].id);
        }
        p
    } else {
        let k = here[i]->0;
        assert(begins_at(slots[k], times[i], all[i]));
        assert(slots[k].start_time.nanos <= times[i]);
        assert(false);
        i
    };
    assert(placed.take(i + 1)[p] == placed[p]);
    assert(placed[p] == Some(j));
    placed_slots_begin_at_their_segment(slots, times, all, n, p);
    a_range_tells_of_its_break(config, window.kind == Some(PlaylistKind::Vod), slots[j]);
    assert(reply.inserted.contains_key(p));
}

/// Two breaks that were asked for, of which each is alone at a segment of the
/// window at which it begins, are both put into the playlist.
pub proof fn two_breaks_are_both_put_in(
    window: MediaView,
    reply: MediaView,
    config: ServerConfig,
    available: Set<AdSlot>,
    available_after: Set<AdSlot>,
    slots: Seq<AdSlot>,
    zones: Seq<i32>,
    times: Seq<int>,
    first: AdSlot,
    second: AdSlot,
    i: int,
    k: int,
)
    requires
        config.insertion_mode == InsertionMode::Dynamic,
        takes_interstitials(window, config),
        lists(slots, available),
        is_inserted(window, reply, config, available, available_after, slots, zones),
        is_timeline(window.segments, times),
        has_distinct_ids(available),
        available.contains(first),
        available.contains(second),
        0 <= i < window.segments.len(),
        0 <= k < window.segments.len(),
        first.start_time.nanos <= times[i] < first.start_time.nanos + length(window.segments[i]),
        second.start_time.nanos <= times[k] < second.start_time.nanos + length(window.segments[k]),
        forall|other: AdSlot| #[trigger]
            available.contains(other) && other != first ==> !(other.start_time.nanos <= times[i]
                < other.start_time.nanos + length(window.segments[i])),
        forall|other: AdSlot| #[trigger]
            available.contains(other) && other != second ==> !(other.start_time.nanos <= times[k]
                < other.start_time.nanos + length(window.segments[k])),
    ensures
        exists|p: int| #[trigger]
            reply.inserted.contains_key(p) && tells_of(
                reply.inserted[p],
                first,
                config,
                window.kind == Some(PlaylistKind::Vod),
            ),
        exists|p: int| #[trigger]
            reply.inserted.contains_key(p) && tells_of(
                reply.inserted[p],
                second,
                config,
                window.kind == Some(PlaylistKind::Vod),
            ),
{
    assert(slots.contains(first) && slots.contains(second));
    let a = choose|a: int| 0 <= a < slots.len() && slots[a] == first;
    let b = choose|b: int| 0 <= b < slots.len() && slots[b] == second;
    assert forall|x: int, y: int| 0 <= x < y < slots.len() implies (#[trigger] slots[x]).id != (
    #[trigger] slots[y]).id by {
        assert(slots.contains(slots[x]) && slots.contains(slots[y]));
        assert(available.contains(slots[x]) && available.contains(slots[y]));
    }
    assert forall|x: int| 0 <= x < slots.len() && x != a implies !((
    #[trigger] slots[x]).start_time.nanos <= times[i] < slots[x].start_time.nanos + length(
        window.segments[i],
    )) by {
        assert(slots.contains(slots[x]));
        assert(available.contains(slots[x]));
    }
    assert forall|x: int| 0 <= x < slots.len() && x != b implies !((
    #[trigger] slots[x]).start_time.nanos <= times[k] < slots[x].start_time.nanos + length(
        window.segments[k],
    )) by {
        assert(slots.contains(slots[x]));
        assert(available.contains(slots[x]));
    }
    a_break_alone_at_its_segment_is_put_in(
        window,
        reply,
        config,
        available,
        available_after,
        slots,
        zones,
        times,
        i,
        a,
    );
    a_break_alone_at_its_segment_is_put_in(
        window,
        reply,
        config,
        available,
        available_after,
        slots,
        zones,
        times,
        k,
        b,
    );
}

/// Whether no two slots share an identifier.
pub open spec fn has_distinct_ids(available: Set<AdSlot>) -> bool {
    forall|a: AdSlot, b: AdSlot| #[trigger]
        available.contains(a) && #[trigger] available.contains(b) && a != b ==> a.id != b.id
}

/// Slots keep identifiers of their own when another break is asked for, whose
/// identifier no slot has, and when breaks that have ended are dropped.
pub proof fn identifiers_stay_distinct(
    available: Set<AdSlot>,
    slot: AdSlot,
    config: ServerConfig,
    slots: Seq<AdSlot>,
    start: int,
)
    requires
        has_distinct_ids(available),
    ensures
        (forall|other: AdSlot| #[trigger] available.contains(other) ==> other.id != slot.id)
            ==> has_distinct_ids(available.insert(slot)),
        config.insertion_mode == InsertionMode::Dynamic ==> has_distinct_ids(
            remaining_slots(available, config, slots, start),
        ),
{
}

/// Everything but the date ranges stays as it was, except that a discontinuity
/// without a tag is given one, which tells when the segment starts.
pub proof fn the_rest_of_a_playlist_stays(
    window: MediaView,
    reply: MediaView,
    config: ServerConfig,
    available: Set<AdSlot>,
    available_after: Set<AdSlot>,
    slots: Seq<AdSlot>,
    zones: Seq<i32>,
    times: Seq<int>,
    i: int,
)
    requires
        takes_interstitials(window, config),
        is_inserted(window, reply, config, available, available_after, slots, zones),
        is_timeline(window.segments, times),
        0 <= i < window.segments.len(),
    ensures
        reply.source == window.source,
        reply.key_order == window.key_order,
        reply.kind == window.kind,
        reply.segments.len() == window.segments.len(),
        reply.segments[i].duration == window.segments[i].duration,
        reply.segments[i].has_discontinuity == window.segments[i].has_discontinuity,
        reply.segments[i].has_map == window.segments[i].has_map,
        window.segments[i].program_date_time is Some || !window.segments[i].has_discontinuity
            ==> reply.segments[i].program_date_time == window.segments[i].program_date_time,
        window.segments[i].program_date_time is None && window.segments[i].has_discontinuity
            && -8_334_601_142_400 <= times[i] / 1_000_000_000 <= 8_210_266_790_399
            && i128::MIN <= times[i] <= i128::MAX ==> reply.segments[i].program_date_time == Some(
            millis_text(
                (times[i] / 1_000_000_000) as i64,
                (times[i] % 1_000_000_000) as u32,
                zones[i],
            ),
        ),
        forall|k: int| #[trigger] window.inserted.contains_key(k) ==> reply.inserted.contains_key(k),
{
    lemma_timeline(window, times);
    assert(reply.segments == dated_segments(window.segments, times_of(window), zones));
}

/// A slot stays available until its break has ended, and no longer: until its
/// start and its length in seconds lie before the window. In static mode the
/// fixed breaks are saved where none are available.
pub proof fn slots_stay_until_their_break_ends(
    window: MediaView,
    reply: MediaView,
    config: ServerConfig,
    available: Set<AdSlot>,
    available_after: Set<AdSlot>,
    slots: Seq<AdSlot>,
    zones: Seq<i32>,
    times: Seq<int>,
    slot: AdSlot,
)
    requires
        takes_interstitials(window, config),
        is_inserted(window, reply, config, available, available_after, slots, zones),
        is_timeline(window.segments, times),
    ensures
        available_after.contains(slot) <==> slot.start_time.nanos + slot.duration * 1_000_000_000
            >= times[0] && (if config.insertion_mode == InsertionMode::Static && (forall|
            other: AdSlot,
        |
            !(#[trigger] available.contains(other))) {
            slots.contains(slot)
        } else {
            available.contains(slot)
        }),
{
    lemma_timeline(window, times);
    assert((forall|other: AdSlot| !(#[trigger] available.contains(other))) <==> available
        =~= Set::<AdSlot>::empty());
}

/// Breaks are put into a playlist exactly where a tag of it tells when it takes
/// place, and it is not a recording for which breaks would have to be asked
/// for.
pub proof fn when_breaks_are_put_in(m: MediaView, config: ServerConfig)
    ensures
        takes_interstitials(m, config) <==> (exists|k: int|
            0 <= k < m.segments.len() && told(#[trigger] m.segments[k]) is Some) && (m.kind
            != Some(PlaylistKind::Vod) || config.insertion_mode == InsertionMode::Static),
{
    the_first_tag_dates_the_window(m);
}

/// In dynamic mode the slots that are put in are the available ones, each once.
pub proof fn asked_for_breaks_are_the_available_ones(
    slots: Seq<AdSlot>,
    m: MediaView,
    config: ServerConfig,
    available: Set<AdSlot>,
    started: Timestamp,
)
    requires
        config.insertion_mode == InsertionMode::Dynamic,
        are_candidates(slots, m, config, available, started),
    ensures
        forall|slot: AdSlot| #[trigger] slots.contains(slot) <==> available.contains(slot),
        forall|a: int, b: int| 0 <= a < b < slots.len() ==> #[trigger] slots[a] != #[trigger] slots[b],
{
}

/// In static mode break number `k` starts `k` cycles after the reference point:
/// the start of a recording, or for a live stream the time at which the server
/// was started. There are as many as configured, of the configured length, each
/// with an identifier of its own.
pub proof fn fixed_breaks_repeat(
    slots: Seq<AdSlot>,
    m: MediaView,
    config: ServerConfig,
    available: Set<AdSlot>,
    started: Timestamp,
    first: int,
    k: int,
)
    requires
        config.insertion_mode == InsertionMode::Static,
        config.can_schedule(),
        are_candidates(slots, m, config, available, started),
        started.is_near(),
        is_first_told(m.segments, first),
        0 <= k < config.target_ad_number,
    ensures
        slots.len() == config.target_ad_number,
        slots[k].start_time.nanos == (if m.kind == Some(PlaylistKind::Vod) {
            told(m.segments[first])->0
        } else {
            started.nanos as int
        }) + (k + 1) * config.target_repeating_cycle * 1_000_000_000,
        slots[k].index == k + 1,
        slots[k].duration == config.target_ad_duration,
        slots[k].pod_num == 2,
        forall|a: int, b: int|
            0 <= a < b < slots.len() ==> (#[trigger] slots[a]).id != (#[trigger] slots[b]).id,
{
    the_first_tag_dates_the_window(m);
    let every = config.target_repeating_cycle;
    let number = config.target_ad_number;
    let base = if m.kind == Some(PlaylistKind::Vod) {
        Timestamp { nanos: window_start(m) as i128 }
    } else {
        started
    };
    assert(told(m.segments[first]) is Some);
    assert(window_start(m) == told(m.segments[first])->0);
    assert(base.is_near()) by {
        lemma_told(m.segments[first]);
    }
    assert(is_static_schedule(slots, config.target_ad_duration, every, number, base));
    let marks = choose|marks: Seq<(u128, i32)>|
        marks.len() == number && has_own_ids(marks) && slots == #[trigger] static_slots(
            config.target_ad_duration,
            every,
            marks,
            base,
        );
    assert((k + 1) * every <= number * every) by (nonlinear_arith)
        requires
            k + 1 <= number,
    ;
    assert(0 <= (k + 1) * every) by (nonlinear_arith)
        requires
            0 <= k,
    ;
    assert(slots[k] == static_slot(config.target_ad_duration, every, base, k + 1, marks[k]));
    assert forall|a: int, b: int| 0 <= a < b < slots.len() implies (#[trigger] slots[a]).id != (
    #[trigger] slots[b]).id by {
        assert(marks[a].0 != marks[b].0);
    }
}

/// In static mode every fixed break that begins at a segment, which is no
/// longer than a cycle, is put into the playlist.
pub proof fn every_fixed_break_is_put_in(
    window: MediaView,
    reply: MediaView,
    config: ServerConfig,
    available: Set<AdSlot>,
    available_after: Set<AdSlot>,
    started: Timestamp,
    slots: Seq<AdSlot>,
    zones: Seq<i32>,
    times: Seq<int>,
    first: int,
    i: int,
    k: int,
)
    requires
        config.insertion_mode == InsertionMode::Static,
        config.can_schedule(),
        takes_interstitials(window, config),
        are_candidates(slots, window, config, available, started),
        started.is_near(),
        is_inserted(window, reply, config, available, available_after, slots, zones),
        is_timeline(window.segments, times),
        is_first_told(window.segments, first),
        0 <= i < window.segments.len(),
        0 <= k < config.target_ad_number,
        length(window.segments[i]) <= config.target_repeating_cycle * 1_000_000_000,
        ({
            let start = (if window.kind == Some(PlaylistKind::Vod) {
                told(window.segments[first])->0
            } else {
                started.nanos as int
            }) + (k + 1) * config.target_repeating_cycle * 1_000_000_000;
            start <= times[i] < start + length(window.segments[i])
        }),
    ensures
        exists|p: int|
            0 <= p <= i && #[trigger] reply.inserted.contains_key(p) && tells_of(
                reply.inserted[p],
                slots[k],
                config,
                window.kind == Some(PlaylistKind::Vod),
            ),
{
    let every = config.target_repeating_cycle;
    fixed_breaks_repeat(slots, window, config, available, started, first, k);
    assert forall|n: int| 0 <= n < slots.len() && n != k implies !((
    #[trigger] slots[n]).start_time.nanos <= times[i] < slots[n].start_time.nanos + length(
        window.segments[i],
    )) by {
        fixed_breaks_repeat(slots, window, config, available, started, first, n);
        if n < k {
            assert((k + 1) * every >= (n + 1) * every + every) by (nonlinear_arith)
                requires
                    n + 1 <= k,
            ;
        } else {
            assert((n + 1) * every >= (k + 1) * every + every) by (nonlinear_arith)
                requires
                    k + 1 <= n,
            ;
        }
    }
    a_break_alone_at_its_segment_is_put_in(
        window,
        reply,
        config,
        available,
        available_after,
        slots,
        zones,
        times,
        i,
        k,
    );
}

/// What is served for a playlist follows from what is put into it: it is left
/// alone where no breaks are put in, and else the candidates are.
pub proof fn what_is_served(
    before: MediaView,
    after: MediaView,
    config: ServerConfig,
    available: Set<AdSlot>,
    available_after: Set<AdSlot>,
    started: Timestamp,
)
    requires
        is_served(before, after, config, available, available_after, started),
    ensures
        !takes_interstitials(before, config) ==> after == before && available_after == available,
        takes_interstitials(before, config) ==> exists|slots: Seq<AdSlot>, zones: Seq<i32>|
            are_candidates(slots, before, config, available, started) && #[trigger] is_inserted(
                before,
                after,
                config,
                available,
                available_after,
                slots,
                zones,
            ),
{
}

/// The live edge that is remembered is where the last segment ends, with its
/// whole length, in milliseconds. A playlist that is not dated tells none.
pub proof fn the_live_edge_is_the_end_of_the_last_segment(
    m: MediaView,
    times: Seq<int>,
    last_seen: i64,
)
    requires
        is_dated(m) ==> is_timeline(m.segments, times),
    ensures
        is_dated(m) && length(m.segments.last()) <= 9_223_372_036_854_775_807_000_000 ==> ({
            let edge = (times.last() + length(m.segments.last())) / 1_000_000;
            seen_live_edge(m.segments, last_seen) == if i64::MIN <= edge <= i64::MAX {
                edge as i64
            } else {
                last_seen
            }
        }),
        !is_dated(m) ==> seen_live_edge(m.segments, last_seen) == last_seen,
{
    if is_dated(m) {
        lemma_timeline(m, times);
    }
}

/// Where the origin sends a dated media playlist, the present of the stream is
/// the end of its last segment, whatever was remembered, and that is remembered
/// then.
pub proof fn the_present_is_the_live_edge_of_the_origin(
    text: Seq<char>,
    m: MediaView,
    times: Seq<int>,
    sums: Seq<int>,
    last_seen: i64,
    now: Timestamp,
)
    requires
        spec_read_media(text) == Some(m),
        is_dated(m),
        is_timeline(m.segments, times),
        is_sum(m.segments, sums),
        sums.last() <= 10_000_000_000_000_000_000_000_000_000,
        length(m.segments.last()) <= 9_223_372_036_854_775_807_000_000,
        ({
            let edge = (times.last() + length(m.segments.last())) / 1_000_000;
            -8_334_601_228_800_000 <= edge < 8_210_266_876_800_000
        }),
    ensures
        ({
            let edge = (times.last() + length(m.segments.last())) / 1_000_000;
            &&& stream_now(Some(text), last_seen, now).nanos == edge * 1_000_000
            &&& refreshed(Some(text), last_seen) == edge
        }),
{
    lemma_timeline(m, times);
    a_playlist_of_ordinary_length_can_be_served(m, sums);
}

/// Where the origin sends nothing, the present of the stream is the live edge
/// that is remembered, and else the clock's.
pub proof fn the_present_without_an_origin(last_seen: i64, now: Timestamp)
    ensures
        refreshed(None, last_seen) == last_seen,
        last_seen == 0 ==> stream_now(None, last_seen, now) == now,
        last_seen != 0 && -8_334_601_228_800_000 <= last_seen < 8_210_266_876_800_000
            ==> stream_now(None, last_seen, now).nanos == last_seen * 1_000_000,
{
}

/// Whether `sums` are the lengths of the segments, summed up from the first on.
pub open spec fn is_sum(segments: Seq<SegmentView>, sums: Seq<int>) -> bool {
    &&& sums.len() == segments.len() + 1
    &&& sums[0] == 0
    &&& forall|k: int, n: int|
        0 <= k && n == k + 1 && n < sums.len() ==> #[trigger] sums[n] == #[trigger] sums[k]
            + segments[k].duration.secs * 1_000_000_000 + segments[k].duration.nanos
}

proof fn lemma_sum(segments: Seq<SegmentView>, sums: Seq<int>, k: int)
    requires
        is_sum(segments, sums),
        0 <= k <= segments.len(),
    ensures
        total_nanos(segments.take(k)) == sums[k],
    decreases k,
{
    if k > 0 {
        lemma_sum(segments, sums, k - 1);
        assert(segments.take(k).drop_last() == segments.take(k - 1));
        assert(sums[k] == sums[k - 1] + segments[k - 1].duration.secs * 1_000_000_000
            + segments[k - 1].duration.nanos);
    }
}

/// A playlist can be reckoned with exactly where its segments together are no
/// longer than ten to the power of 28 nanoseconds.
pub proof fn a_playlist_of_ordinary_length_can_be_served(m: MediaView, sums: Seq<int>)
    requires
        is_sum(m.segments, sums),
    ensures
        measurable(m.segments) <==> sums.last() <= 10_000_000_000_000_000_000_000_000_000,
{
    lemma_sum(m.segments, sums, m.segments.len() as int);
    assert(m.segments.take(m.segments.len() as int) == m.segments);
}

/// Whether the last pair whose key is `a` or `b` holds the number `n`.
pub open spec fn ends_with_number(
    pairs: Seq<(Seq<char>, Seq<char>)>,
    a: Seq<char>,
    b: Seq<char>,
    n: u64,
) -> bool {
    exists|i: int|
        {
            &&& 0 <= i < pairs.len()
            &&& (#[trigger] pairs[i]).0 == a || pairs[i].0 == b
            &&& parsed_u64(pairs[i].1) == Some(n)
            &&& forall|k: int|
                i < k < pairs.len() ==> (#[trigger] pairs[k]).0 != a && pairs[k].0 != b
        }
}

proof fn lemma_last_number(pairs: Seq<(Seq<char>, Seq<char>)>, a: Seq<char>, b: Seq<char>, n: u64)
    ensures
        last_number(pairs, a, b) == Some(n) <==> ends_with_number(pairs, a, b, n),
    decreases pairs.len(),
{
    if pairs.len() > 0 {
        let last = pairs.len() - 1;
        let shorter = pairs.drop_last();
        if pairs[last].0 == a || pairs[last].0 == b {
            if ends_with_number(pairs, a, b, n) {
                let i = choose|i: int|
                    {
                        &&& 0 <= i < pairs.len()
                        &&& (#[trigger] pairs[i]).0 == a || pairs[i].0 == b
                        &&& parsed_u64(pairs[i].1) == Some(n)
                        &&& forall|k: int|
                            i < k < pairs.len() ==> (#[trigger] pairs[k]).0 != a && pairs[k].0 != b
                    };
                if i < last {
                    assert(pairs[last].0 != a);
                }
            }
            assert(parsed_u64(pairs[last].1) == Some(n) ==> ends_with_number(pairs, a, b, n));
        } else {
            lemma_last_number(shorter, a, b, n);
            if ends_with_number(shorter, a, b, n) {
                let i = choose|i: int|
                    {
                        &&& 0 <= i < shorter.len()
                        &&& (#[trigger] shorter[i]).0 == a || shorter[i].0 == b
                        &&& parsed_u64(shorter[i].1) == Some(n)
                        &&& forall|k: int|
                            i < k < shorter.len() ==> (#[trigger] shorter[k]).0 != a
                                && shorter[k].0 != b
                    };
                assert(pairs[i] == shorter[i]);
                assert forall|k: int| i < k < pairs.len() implies (#[trigger] pairs[k]).0 != a
                    && pairs[k].0 != b by {
                    if k < last {
                        assert(shorter[k] == pairs[k]);
                    }
                }
            }
            if ends_with_number(pairs, a, b, n) {
                let i = choose|i: int|
                    {
                        &&& 0 <= i < pairs.len()
                        &&& (#[trigger] pairs[i]).0 == a || pairs[i].0 == b
                        &&& parsed_u64(pairs[i].1) == Some(n)
                        &&& forall|k: int|
                            i < k < pairs.len() ==> (#[trigger] pairs[k]).0 != a && pairs[k].0 != b
                    };
                assert(shorter[i] == pairs[i]);
                assert forall|k: int| i < k < shorter.len() implies (#[trigger] shorter[k]).0 != a
                    && shorter[k].0 != b by {
                    assert(pairs[k] == shorter[k]);
                }
            }
        }
    }
}

/// A command is understood exactly where each of its three numbers is given,
/// and the last time it is given it is a number: when the break starts, how
/// long it lasts, and how many ads it has.
pub proof fn a_command_has_three_numbers(
    pairs: Seq<(Seq<char>, Seq<char>)>,
    in_sec: u64,
    duration: u64,
    pod_num: u64,
)
    ensures
        command_of(pairs) == Some(InsertionCommand { in_sec, duration, pod_num }) <==> (
        ends_with_number(pairs, "in"@, "in"@, in_sec) && ends_with_number(
            pairs,
            "dur"@,
            "duration"@,
            duration,
        ) && ends_with_number(pairs, "pod"@, "pod_num"@, pod_num)),
{
    lemma_last_number(pairs, "in"@, "in"@, in_sec);
    lemma_last_number(pairs, "dur"@, "duration"@, duration);
    lemma_last_number(pairs, "pod"@, "pod_num"@, pod_num);
}

/// The slot of a command starts as many seconds after the live edge, lasts as
/// many seconds, and has as many ads, as was asked for.
pub proof fn a_slot_is_as_asked_for(
    command: InsertionCommand,
    stream_now: Timestamp,
    index: u64,
    id: u128,
    zone: i32,
)
    requires
        stream_now.is_near(),
    ensures
        ({
            let slot = command.slot(stream_now, index, id, zone);
            &&& slot.start_time.nanos == stream_now.nanos + command.in_sec * 1_000_000_000
            &&& slot.duration == command.duration
            &&& slot.pod_num == command.pod_num
            &&& slot.index == index
            &&& slot.id == id
            &&& slot.zone == zone
            &&& slot.end() == stream_now.nanos + (command.in_sec + command.duration)
                * 1_000_000_000
            &&& slot.spec_name() == "ad_slot"@ + decimal(index as nat)
        }),
{
}

/// A dated playlist can be served exactly where its segments together are no
/// longer than can be reckoned, and so are the fixed breaks, where breaks are
/// fixed.
pub proof fn when_a_playlist_can_be_served(m: MediaView, config: ServerConfig, sums: Seq<int>)
    requires
        is_sum(m.segments, sums),
    ensures
        can_serve(m, config) <==> {
            &&& sums.last() <= 10_000_000_000_000_000_000_000_000_000
            &&& config.insertion_mode == InsertionMode::Dynamic || config.target_ad_number
                * config.target_repeating_cycle <= 9_223_372_036_854_775
        },
{
    a_playlist_of_ordinary_length_can_be_served(m, sums);
}

} // verus!

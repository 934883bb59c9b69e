//! Interstitials: ad slots become date ranges of the segments at which the
//! breaks start.

use vstd::prelude::*;

use crate::config::{option_skip, resolve_skip_control, skip_control, InsertionMode, ServerConfig,
    SkipControlAttrs, SkipControlView};
use crate::hls::{attribute_views, build_tag, is_plain_option, media_contents, playlist_kind,
    segment_views, segments, set_date_range, set_program_date_time, AttributeValue, AttributeView,
    DateRange, DateRangeView, MediaView, PlaylistKind, Segment, SegmentView, Span};
use crate::slots::{generate_static_ad_slots, is_static_schedule, lists, static_slot, static_slots,
    AdSlot, AvailableAdSlots, LONGEST_SCHEDULE};
use crate::text::join_texts;
use crate::time::{is_zone, span_nanos, to_nanos, Timestamp, FAR, SECOND};
use crate::timeline::{calculate_expected_program_date_time_list, expected_times,
    find_program_datetime_tag, first_date_time, lemma_total_prefix, measurable, time_views};

verus! {

/// The playlist at which a player finds the ads of a slot, with the parameter
/// that names the slot.
pub open spec fn asset_list_url(address: Seq<char>, name: Seq<char>) -> Seq<char> {
    address + "interstitials.m3u8?_HLS_interstitial_id="@ + name
}

pub open spec fn skip_attributes(skip: Option<SkipControlView>) -> Seq<
    (Seq<char>, AttributeView),
> {
    match skip {
        Some(control) => {
            let duration = match control.duration {
                Some(n) => seq![("X-SKIP-CONTROL-DURATION"@, AttributeView::Number(n))],
                None => seq![],
            };
            let label = match control.label_id {
                Some(id) => seq![("X-SKIP-CONTROL-LABEL-ID"@, AttributeView::Text(id))],
                None => seq![],
            };
            duration + label + seq![
                ("X-SKIP-CONTROL-OFFSET"@, AttributeView::Number(control.offset)),
            ]
        },
        None => seq![],
    }
}

/// The date range of an interstitial. Where the skip button is offered, the
/// player may not forbid skipping; jumping over the break stays forbidden. The
/// primary content of a live stream goes on during the break, so the player
/// resumes after it; that of a recording waits.
pub open spec fn interstitial(
    config: ServerConfig,
    vod: bool,
    slot: AdSlot,
) -> DateRangeView {
    let skip = skip_control(config, slot.duration);
    DateRangeView {
        id: slot.spec_name(),
        class: Some("com.apple.hls.interstitial"@),
        start_date: slot.start_date(),
        duration: Some(Span { secs: slot.duration, nanos: 0 }),
        attributes: seq![
            (
                "X-ASSET-LIST"@,
                AttributeView::Text(
                    asset_list_url(config.interstitials_address@, slot.spec_name()),
                ),
            ),
            (
                "X-RESTRICT"@,
                AttributeView::Text(
                    if skip is Some {
                        "JUMP"@
                    } else {
                        "SKIP,JUMP"@
                    },
                ),
            ),
            (
                "X-RESUME-OFFSET"@,
                AttributeView::Number(
                    if vod {
                        0
                    } else {
                        slot.duration
                    },
                ),
            ),
        ] + skip_attributes(skip) + seq![
            ("X-SNAP"@, AttributeView::Text("IN,OUT"@)),
        ],
    }
}

fn push_attribute(list: &mut Vec<(String, AttributeValue)>, key: &str, value: AttributeValue)
    ensures
        attribute_views(final(list)@) == attribute_views(old(list)@).push((key@, value@)),
{
    let ghost before = list@;
    list.push((key.to_string(), value));
    assert(attribute_views(list@) =~= attribute_views(before).push((key@, value@)));
}

fn push_skip_attributes(list: &mut Vec<(String, AttributeValue)>, skip: &Option<SkipControlAttrs>)
    ensures
        attribute_views(final(list)@) == attribute_views(old(list)@) + skip_attributes(
            option_skip(*skip),
        ),
{
    let ghost before = attribute_views(list@);
    match skip {
        Some(control) => {
            if let Some(n) = control.duration {
                push_attribute(list, "X-SKIP-CONTROL-DURATION", AttributeValue::Number(n));
            }
            if let Some(id) = &control.label_id {
                push_attribute(list, "X-SKIP-CONTROL-LABEL-ID", AttributeValue::Text(id.clone()));
            }
            push_attribute(list, "X-SKIP-CONTROL-OFFSET", AttributeValue::Number(control.offset));
        },
        None => {},
    }
    assert(attribute_views(list@) =~= before + skip_attributes(option_skip(*skip)));
}

/// The date range of an interstitial. Its date has neither quotes nor line
/// ends.
pub fn build_interstitial(config: &ServerConfig, vod: bool, slot: &AdSlot) -> (r: DateRange)
    requires
        slot.wf(),
    ensures
        r@ == interstitial(*config, vod, *slot),
        r@.buildable(),
        is_plain_option(slot.start_date()),
{
    let name = slot.name();
    let url = join_texts(
        join_texts(
            config.interstitials_address.as_str(),
            "interstitials.m3u8?_HLS_interstitial_id=",
        ).as_str(),
        name.as_str(),
    );
    let skip = resolve_skip_control(config, slot.duration);
    let restrict = if skip.is_some() { "JUMP" } else { "SKIP,JUMP" };
    let mut attributes: Vec<(String, AttributeValue)> = Vec::new();
    push_attribute(&mut attributes, "X-ASSET-LIST", AttributeValue::Text(url));
    push_attribute(&mut attributes, "X-RESTRICT", AttributeValue::Text(restrict.to_string()));
    push_attribute(
        &mut attributes,
        "X-RESUME-OFFSET",
        AttributeValue::Number(if vod { 0 } else { slot.duration }),
    );
    push_skip_attributes(&mut attributes, &skip);
    push_attribute(&mut attributes, "X-SNAP", AttributeValue::Text("IN,OUT".to_string()));
    let r = DateRange {
        id: name,
        class: Some("com.apple.hls.interstitial".to_string()),
        start_date: slot.start_time.to_millis_text(slot.zone),
        duration: Some(Span { secs: slot.duration, nanos: 0 }),
        attributes,
    };
    proof {
        let expected = interstitial(*config, vod, *slot);
        assert(r@.attributes =~= expected.attributes);
        assert forall|i: int| 0 <= i < r@.attributes.len() implies (
        #[trigger] r@.attributes[i]).1 !is Other by {
            assert(r@.attributes[i] == expected.attributes[i]);
        }
    }
    r
}

/// Whether a segment that starts at `time` and lasts for `length` is the one
/// at which the slot's break begins: the first that starts with or after it.
pub open spec fn begins_at(slot: AdSlot, time: int, length: int) -> bool {
    slot.start_time.nanos <= time < slot.start_time.nanos + length
}

/// Whether the slot with the identifier `id` was placed before. A placement is
/// the position of a slot in `slots`.
pub open spec fn is_placed(slots: Seq<AdSlot>, placed: Seq<Option<int>>, id: u128) -> bool {
    exists|k: int|
        0 <= k < placed.len() && (#[trigger] placed[k]) is Some && slots[placed[k]->0].id == id
}

/// The first slot, from position `from` on, that begins at a segment and was
/// not placed before.
pub open spec fn first_free(
    slots: Seq<AdSlot>,
    placed: Seq<Option<int>>,
    time: int,
    length: int,
    from: int,
) -> Option<int>
    decreases slots.len() - from,
{
    if from >= slots.len() {
        None
    } else if begins_at(slots[from], time, length) && !is_placed(slots, placed, slots[from].id) {
        Some(from)
    } else {
        first_free(slots, placed, time, length, from + 1)
    }
}

/// The slots that are placed at the first `n` segments, one by one.
pub open spec fn placements(
    slots: Seq<AdSlot>,
    times: Seq<int>,
    lengths: Seq<int>,
    n: int,
) -> Seq<Option<int>>
    decreases n,
{
    if n <= 0 {
        seq![]
    } else {
        let before = placements(slots, times, lengths, n - 1);
        before.push(first_free(slots, before, times[n - 1], lengths[n - 1], 0))
    }
}

pub open spec fn lengths(segments: Seq<SegmentView>) -> Seq<int> {
    segments.map_values(|s: SegmentView| span_nanos(s.duration))
}

pub open spec fn placement_views(v: Seq<Option<usize>>) -> Seq<Option<int>> {
    v.map_values(
        |p: Option<usize>|
            match p {
                Some(j) => Some(j as int),
                None => None,
            },
    )
}

/// The slot of `slots` that is placed at a segment, where `placed` says which
/// slots were placed before.
fn find_free(
    slots: &Vec<AdSlot>,
    placed: &Vec<Option<usize>>,
    time: Timestamp,
    length: i128,
) -> (r: Option<usize>)
    requires
        forall|k: int| 0 <= k < slots@.len() ==> (#[trigger] slots@[k]).wf(),
        forall|k: int|
            0 <= k < placed@.len() ==> ((#[trigger] placed@[k]) matches Some(j) ==> j
                < slots@.len()),
        0 <= length <= 4 * FAR,
    ensures
        match r {
            Some(j) => j < slots@.len() && first_free(
                slots@,
                placement_views(placed@),
                time.nanos as int,
                length as int,
                0,
            ) == Some(j as int),
            None => first_free(
                slots@,
                placement_views(placed@),
                time.nanos as int,
                length as int,
                0,
            ) is None,
        },
{
    let ghost views = placement_views(placed@);
    for j in 0..slots.len()
        invariant
            views == placement_views(placed@),
            forall|k: int| 0 <= k < slots@.len() ==> (#[trigger] slots@[k]).wf(),
            forall|k: int|
                0 <= k < placed@.len() ==> ((#[trigger] placed@[k]) matches Some(j) ==> j
                    < slots@.len()),
            0 <= length <= 4 * FAR,
            first_free(slots@, views, time.nanos as int, length as int, 0) == first_free(
                slots@,
                views,
                time.nanos as int,
                length as int,
                j as int,
            ),
    {
        let slot = slots[j];
        assert(slots@[j as int].wf());
        if slot.start_time.nanos <= time.nanos && time.nanos < slot.start_time.nanos + length {
            let mut free = true;
            for k in 0..placed.len()
                invariant
                    views == placement_views(placed@),
                    j < slots@.len(),
                    slot == slots@[j as int],
                    forall|k: int|
                        0 <= k < placed@.len() ==> ((#[trigger] placed@[k]) matches Some(j) ==> j
                            < slots@.len()),
                    free ==> forall|m: int|
                        0 <= m < k ==> ((#[trigger] views[m]) is Some ==> slots@[views[m]->0].id
                            != slot.id),
                    !free ==> is_placed(slots@, views, slot.id),
            {
                assert(placed@[k as int] matches Some(j) ==> j < slots@.len());
                if let Some(p) = placed[k] {
                    assert(views[k as int] == Some(p as int));
                    if slots[p].id == slot.id {
                        free = false;
                    }
                } else {
                    assert(views[k as int] is None);
                }
            }
            if free {
                assert(!is_placed(slots@, views, slot.id));
                return Some(j);
            }
        }
    }
    None
}

/// Which slot is placed at which segment.
pub fn match_slots(slots: &Vec<AdSlot>, times: &Vec<Timestamp>, segments: &Vec<Segment>) -> (r: Vec<
    Option<usize>,
>)
    requires
        forall|k: int| 0 <= k < slots@.len() ==> (#[trigger] slots@[k]).wf(),
        times@.len() == segments@.len(),
        measurable(segment_views(segments@)),
    ensures
        placement_views(r@) == placements(
            slots@,
            time_views(times@),
            lengths(segment_views(segments@)),
            times@.len() as int,
        ),
        r@.len() == times@.len(),
        forall|k: int|
            0 <= k < r@.len() ==> ((#[trigger] r@[k]) matches Some(j) ==> j < slots@.len()),
{
    let ghost views = segment_views(segments@);
    let mut r: Vec<Option<usize>> = Vec::new();
    for i in 0..times.len()
        invariant
            views == segment_views(segments@),
            measurable(views),
            forall|k: int| 0 <= k < slots@.len() ==> (#[trigger] slots@[k]).wf(),
            times@.len() == segments@.len(),
            r@.len() == i,
            forall|k: int|
                0 <= k < i ==> ((#[trigger] r@[k]) matches Some(j) ==> j < slots@.len()),
            placement_views(r@) =~= placements(
                slots@,
                time_views(times@),
                lengths(views),
                i as int,
            ),
    {
        proof {
            lemma_total_prefix(views, i as int);
            lemma_total_prefix(views, i + 1);
            assert(views.take(i + 1).drop_last() == views.take(i as int));
            assert(views.take(i + 1).last() == segments@[i as int]@);
        }
        let length = to_nanos(segments[i].duration);
        assert(lengths(views)[i as int] == length);
        let ghost before = r@;
        let slot = find_free(slots, &r, times[i], length);
        r.push(slot);
        assert(placement_views(r@) =~= placement_views(before).push(
            match slot {
                Some(j) => Some(j as int),
                None => None,
            },
        ));
    }
    r
}

/// The date and time text of the point `time`, in the time zone `zone`; `None`
/// beyond the years that a date can have.
pub open spec fn date_text(time: int, zone: i32) -> Option<Seq<char>> {
    Timestamp { nanos: time as i128 }.millis_text(zone)
}

/// Whether a playlist says when it takes place: some segment has a date and
/// time tag that can be read.
pub open spec fn is_dated(m: MediaView) -> bool {
    first_date_time(m.segments) is Some
}

/// The time at which the window of a dated playlist starts: what the first
/// date and time tag says.
pub open spec fn window_start(m: MediaView) -> int {
    first_date_time(m.segments)->0.nanos as int
}

/// The times of the segments of a dated playlist.
pub open spec fn times_of(m: MediaView) -> Seq<int> {
    expected_times(m.segments, window_start(m))
}

/// Whether segment `i` lacks a date and time that it ought to have: after a
/// discontinuity the times of the segments before do not go on.
pub open spec fn lacks_date_time(segment: SegmentView) -> bool {
    segment.has_discontinuity && segment.program_date_time is None
}

/// A segment that starts at `time`, with a date and time in the time zone
/// `zone` where it lacks one.
pub open spec fn dated(segment: SegmentView, time: int, zone: i32) -> SegmentView {
    if lacks_date_time(segment) {
        SegmentView { program_date_time: date_text(time, zone), ..segment }
    } else {
        segment
    }
}

/// The segments of a playlist, with a date and time at each discontinuity.
pub open spec fn dated_segments(
    segments: Seq<SegmentView>,
    times: Seq<int>,
    zones: Seq<i32>,
) -> Seq<SegmentView> {
    Seq::new(segments.len(), |i: int| dated(segments[i], times[i], zones[i]))
}

/// The date ranges of a playlist, with the slots that are placed at its
/// segments.
pub open spec fn with_ranges(
    inserted: Map<int, DateRangeView>,
    config: ServerConfig,
    vod: bool,
    slots: Seq<AdSlot>,
    placed: Seq<Option<int>>,
) -> Map<int, DateRangeView> {
    Map::new(
        |i: int| inserted.contains_key(i) || (0 <= i < placed.len() && placed[i] is Some),
        |i: int|
            if 0 <= i < placed.len() && placed[i] is Some {
                interstitial(config, vod, slots[placed[i]->0])
            } else {
                inserted[i]
            },
    )
}

/// A playlist with the slots of `slots` placed at its segments, which start at
/// `times`, and a date and time at each discontinuity, in the time zones
/// `zones`.
pub open spec fn filled(
    m: MediaView,
    config: ServerConfig,
    slots: Seq<AdSlot>,
    times: Seq<int>,
    zones: Seq<i32>,
) -> MediaView {
    MediaView {
        segments: dated_segments(m.segments, times, zones),
        inserted: with_ranges(
            m.inserted,
            config,
            m.kind == Some(PlaylistKind::Vod),
            slots,
            placements(slots, times, lengths(m.segments), m.segments.len() as int),
        ),
        ..m
    }
}

/// Whether the dates of the slots that are placed have neither quotes nor line
/// ends.
pub open spec fn has_plain_dates(slots: Seq<AdSlot>, placed: Seq<Option<int>>) -> bool {
    forall|i: int|
        0 <= i < placed.len() ==> ((#[trigger] placed[i]) matches Some(j) ==> is_plain_option(
            slots[j].start_date(),
        ))
}

/// A date and time tag is put at each discontinuity that has none.
fn date_discontinuities(
    m3u8: &mut hls_m3u8::MediaPlaylist<'static>,
    segments: &Vec<Segment>,
    times: &Vec<Timestamp>,
    zones: &Vec<i32>,
)
    requires
        segment_views(segments@) == media_contents(*old(m3u8)).segments,
        times@.len() == segments@.len(),
        are_zones(zones@, segments@.len()),
    ensures
        media_contents(*final(m3u8)) == (MediaView {
            segments: dated_segments(
                media_contents(*old(m3u8)).segments,
                time_views(times@),
                zones@,
            ),
            ..media_contents(*old(m3u8))
        }),
{
    let ghost before = media_contents(*m3u8);
    let ghost all = dated_segments(before.segments, time_views(times@), zones@);
    for i in 0..segments.len()
        invariant
            segment_views(segments@) == before.segments,
            times@.len() == segments@.len(),
            are_zones(zones@, segments@.len()),
            all == dated_segments(before.segments, time_views(times@), zones@),
            media_contents(*m3u8) == (MediaView {
                segments: media_contents(*m3u8).segments,
                ..before
            }),
            media_contents(*m3u8).segments.len() == before.segments.len(),
            forall|k: int|
                i <= k < before.segments.len() ==> #[trigger] media_contents(*m3u8).segments[k]
                    == before.segments[k],
            forall|k: int|
                0 <= k < i ==> #[trigger] media_contents(*m3u8).segments[k] == all[k],
    {
        assert(before.segments[i as int] == segments@[i as int]@);
        if segments[i].has_discontinuity && segments[i].program_date_time.is_none() {
            assert(is_zone(zones@[i as int]));
            if let Some(text) = times[i].to_millis_text(zones[i]) {
                set_program_date_time(m3u8, i, text);
            }
        }
    }
    assert(media_contents(*m3u8).segments =~= all);
}

/// Each slot that is placed at a segment becomes that segment's date range.
fn insert_date_ranges(
    m3u8: &mut hls_m3u8::MediaPlaylist<'static>,
    config: &ServerConfig,
    vod: bool,
    slots: &Vec<AdSlot>,
    placed: &Vec<Option<usize>>,
)
    requires
        placed@.len() == media_contents(*old(m3u8)).segments.len(),
        forall|k: int| 0 <= k < slots@.len() ==> (#[trigger] slots@[k]).wf(),
        forall|k: int|
            0 <= k < placed@.len() ==> ((#[trigger] placed@[k]) matches Some(j) ==> j
                < slots@.len()),
    ensures
        media_contents(*final(m3u8)) == (MediaView {
            inserted: with_ranges(
                media_contents(*old(m3u8)).inserted,
                *config,
                vod,
                slots@,
                placement_views(placed@),
            ),
            ..media_contents(*old(m3u8))
        }),
        has_plain_dates(slots@, placement_views(placed@)),
{
    let ghost before = media_contents(*m3u8);
    let ghost views = placement_views(placed@);
    assert(views.take(0) =~= seq![]);
    assert(media_contents(*m3u8).inserted =~= with_ranges(
        before.inserted,
        *config,
        vod,
        slots@,
        views.take(0),
    ));
    for i in 0..placed.len()
        invariant
            views == placement_views(placed@),
            placed@.len() == before.segments.len(),
            forall|k: int| 0 <= k < slots@.len() ==> (#[trigger] slots@[k]).wf(),
            forall|k: int|
                0 <= k < placed@.len() ==> ((#[trigger] placed@[k]) matches Some(j) ==> j
                    < slots@.len()),
            media_contents(*m3u8) == (MediaView {
                inserted: with_ranges(
                    before.inserted,
                    *config,
                    vod,
                    slots@,
                    views.take(i as int),
                ),
                ..before
            }),
            has_plain_dates(slots@, views.take(i as int)),
    {
        assert(placed@[i as int] matches Some(j) ==> j < slots@.len());
        let ghost earlier = media_contents(*m3u8).inserted;
        assert(views.take(i + 1) =~= views.take(i as int).push(views[i as int]));
        if let Some(j) = placed[i] {
            assert(views[i as int] == Some(j as int));
            assert(slots@[j as int].wf());
            let range = build_interstitial(config, vod, &slots[j]);
            set_date_range(m3u8, i, build_tag(&range));
        } else {
            assert(views[i as int] is None);
        }
        proof {
            let taken = views.take(i + 1);
            assert forall|k: int| 0 <= k < taken.len() implies ((
            #[trigger] taken[k]) matches Some(j) ==> is_plain_option(slots@[j].start_date())) by {
                if k < i {
                    assert(taken[k] == views.take(i as int)[k]);
                }
            }
        }
        assert(media_contents(*m3u8).inserted =~= with_ranges(
            before.inserted,
            *config,
            vod,
            slots@,
            views.take(i + 1),
        ));
    }
    assert(views.take(views.len() as int) == views);
}

/// The slots that stay available when a playlist is served whose window starts
/// at `start`: those whose break has not ended before. The fixed breaks are
/// saved where none are available yet.
pub open spec fn remaining_slots(
    available: Set<AdSlot>,
    config: ServerConfig,
    slots: Seq<AdSlot>,
    start: int,
) -> Set<AdSlot> {
    let saved = if config.insertion_mode == InsertionMode::Static && available == Set::<
        AdSlot,
    >::empty() {
        slots.to_set()
    } else {
        available
    };
    saved.filter(|slot: AdSlot| slot.end() >= start)
}

/// Whether interstitials are inserted at all. Where a playlist does not say
/// when it takes place, nothing can be put at its time; and a recording has no
/// present, so there is nothing that a break could be asked for in it.
pub open spec fn takes_interstitials(m: MediaView, config: ServerConfig) -> bool {
    &&& is_dated(m)
    &&& m.kind != Some(PlaylistKind::Vod) || config.insertion_mode == InsertionMode::Static
}

/// Whether `zones` are `n` time zones that there can be.
pub open spec fn are_zones(zones: Seq<i32>, n: nat) -> bool {
    zones.len() == n && forall|i: int| 0 <= i < n ==> is_zone(#[trigger] zones[i])
}

/// Whether `after` and `available_after` are what becomes of a playlist and
/// the available slots when the slots of `slots` are placed, and the dates at
/// discontinuities are told in the time zones `zones`.
pub open spec fn is_inserted(
    before: MediaView,
    after: MediaView,
    config: ServerConfig,
    available: Set<AdSlot>,
    available_after: Set<AdSlot>,
    slots: Seq<AdSlot>,
    zones: Seq<i32>,
) -> bool {
    &&& after == filled(before, config, slots, times_of(before), zones)
    &&& has_plain_dates(
        slots,
        placements(
            slots,
            times_of(before),
            lengths(before.segments),
            before.segments.len() as int,
        ),
    )
    &&& available_after == remaining_slots(available, config, slots, times_of(before)[0])
}

proof fn lemma_dated(segments: Seq<SegmentView>)
    ensures
        first_date_time(segments) is Some ==> segments.len() > 0,
{
}

/// The slots of `slots` are placed in a dated playlist, and the dates at
/// discontinuities are told in the time zones `zones`. How long a slot stays
/// available is in [`remaining_slots`].
pub fn insert_slots(
    m3u8: &mut hls_m3u8::MediaPlaylist<'static>,
    config: &ServerConfig,
    available_slots: &mut AvailableAdSlots,
    slots: &Vec<AdSlot>,
    zones: &Vec<i32>,
)
    requires
        old(available_slots).wf(),
        forall|k: int| 0 <= k < slots@.len() ==> (#[trigger] slots@[k]).wf(),
        takes_interstitials(media_contents(*old(m3u8)), *config),
        measurable(media_contents(*old(m3u8)).segments),
        are_zones(zones@, media_contents(*old(m3u8)).segments.len()),
    ensures
        final(available_slots).wf(),
        is_inserted(
            media_contents(*old(m3u8)),
            media_contents(*final(m3u8)),
            *config,
            old(available_slots)@,
            final(available_slots)@,
            slots@,
            zones@,
        ),
{
    let ghost before = media_contents(*m3u8);
    let vod = playlist_kind(m3u8) == Some(PlaylistKind::Vod);
    let read = segments(m3u8);
    let start = find_program_datetime_tag(&read).unwrap();
    let ghost saved = if config.insertion_mode == InsertionMode::Static && available_slots@
        == Set::<AdSlot>::empty() {
        slots@.to_set()
    } else {
        available_slots@
    };
    if config.insertion_mode == InsertionMode::Static && available_slots.is_empty() {
        for k in 0..slots.len()
            invariant
                forall|k: int| 0 <= k < slots@.len() ==> (#[trigger] slots@[k]).wf(),
                available_slots.wf(),
                available_slots@ =~= slots@.take(k as int).to_set(),
        {
            assert(slots@[k as int].wf());
            let ghost earlier = available_slots@;
            available_slots.insert(slots[k]);
            let ghost shorter = slots@.take(k as int);
            let ghost longer = slots@.take(k + 1);
            assert forall|slot: AdSlot| #[trigger]
                available_slots@.contains(slot) <==> longer.to_set().contains(slot) by {
                if earlier.contains(slot) {
                    assert(shorter.to_set().contains(slot));
                    let p = choose|p: int| 0 <= p < shorter.len() && shorter[p] == slot;
                    assert(longer[p] == slot);
                }
                if longer.contains(slot) && slot != slots@[k as int] {
                    let p = choose|p: int| 0 <= p < longer.len() && longer[p] == slot;
                    assert(shorter[p] == slot);
                    assert(shorter.to_set().contains(slot));
                }
                assert(longer[k as int] == slots@[k as int]);
            }
            assert(available_slots@ =~= slots@.take(k + 1).to_set());
        }
        assert(slots@.take(slots@.len() as int) == slots@);
    }
    assert(available_slots@ =~= saved);
    let times = calculate_expected_program_date_time_list(&read, start);
    proof {
        lemma_dated(before.segments);
        assert(time_views(times@) == times_of(before));
        assert(times@.len() == time_views(times@).len());
        assert(time_views(times@)[0] == times@[0].nanos);
    }
    available_slots.evict(times[0]);
    assert(available_slots@ == remaining_slots(
        old(available_slots)@,
        *config,
        slots@,
        times@[0].nanos as int,
    ));
    date_discontinuities(m3u8, &read, &times, zones);
    let placed = match_slots(slots, &times, &read);
    insert_date_ranges(m3u8, config, vod, slots, &placed);
}

/// Whether `slots` are the ones that are placed in a playlist. In static mode
/// they are the fixed breaks, reckoned from the start of a recording, or for a
/// live stream from when the server was started; in dynamic mode they are the
/// available ones, in some order.
pub open spec fn are_candidates(
    slots: Seq<AdSlot>,
    m: MediaView,
    config: ServerConfig,
    available: Set<AdSlot>,
    started: Timestamp,
) -> bool {
    match config.insertion_mode {
        InsertionMode::Static => is_static_schedule(
            slots,
            config.target_ad_duration,
            config.target_repeating_cycle,
            config.target_ad_number,
            if m.kind == Some(PlaylistKind::Vod) {
                Timestamp { nanos: window_start(m) as i128 }
            } else {
                started
            },
        ),
        InsertionMode::Dynamic => lists(slots, available),
    }
}

/// The machine's time zones at the starts of the segments.
fn local_zones(segments: &Vec<Segment>, start: Timestamp) -> (r: Vec<i32>)
    requires
        measurable(segment_views(segments@)),
        start.is_near(),
    ensures
        are_zones(r@, segments@.len()),
{
    let times = calculate_expected_program_date_time_list(segments, start);
    assert(times@.len() == time_views(times@).len());
    let mut r: Vec<i32> = Vec::new();
    for i in 0..times.len()
        invariant
            are_zones(r@, i as nat),
    {
        r.push(times[i].local_zone());
    }
    r
}

/// Interstitials are put into a playlist that was read from the origin. One
/// that takes none is left as it is. The identifiers of fixed breaks, the
/// order in which the available slots come and the machine's time zone are
/// given from outside.
pub fn insert_interstitials(
    m3u8: &mut hls_m3u8::MediaPlaylist<'static>,
    config: &ServerConfig,
    available_slots: &mut AvailableAdSlots,
    started: Timestamp,
)
    requires
        old(available_slots).wf(),
        measurable(media_contents(*old(m3u8)).segments),
        config.can_schedule(),
        started.is_near(),
    ensures
        final(available_slots).wf(),
        !takes_interstitials(media_contents(*old(m3u8)), *config) ==> media_contents(*final(m3u8))
            == media_contents(*old(m3u8)) && final(available_slots)@ == old(available_slots)@,
        takes_interstitials(media_contents(*old(m3u8)), *config) ==> exists|
            slots: Seq<AdSlot>,
            zones: Seq<i32>,
        |
            are_candidates(
                slots,
                media_contents(*old(m3u8)),
                *config,
                old(available_slots)@,
                started,
            ) && #[trigger] is_inserted(
                media_contents(*old(m3u8)),
                media_contents(*final(m3u8)),
                *config,
                old(available_slots)@,
                final(available_slots)@,
                slots,
                zones,
            ),
{
    let vod = playlist_kind(m3u8) == Some(PlaylistKind::Vod);
    let is_static = config.insertion_mode == InsertionMode::Static;
    if vod && !is_static {
        return;
    }
    let read = segments(m3u8);
    let start = match find_program_datetime_tag(&read) {
        Some(start) => start,
        None => return,
    };
    let slots = if is_static {
        generate_static_ad_slots(
            config.target_ad_duration,
            config.target_repeating_cycle,
            config.target_ad_number,
            if vod { start } else { started },
        )
    } else {
        available_slots.items()
    };
    assert(are_candidates(slots@, media_contents(*m3u8), *config, available_slots@, started));
    let zones = local_zones(&read, start);
    insert_slots(m3u8, config, available_slots, &slots, &zones);
}

proof fn lemma_first_free(
    slots: Seq<AdSlot>,
    placed: Seq<Option<int>>,
    time: int,
    length: int,
    from: int,
)
    requires
        0 <= from,
    ensures
        match first_free(slots, placed, time, length, from) {
            Some(j) => from <= j < slots.len() && begins_at(slots[j], time, length) && !is_placed(
                slots,
                placed,
                slots[j].id,
            ) && forall|k: int|
                from <= k < j ==> !begins_at(#[trigger] slots[k], time, length) || is_placed(
                    slots,
                    placed,
                    slots[k].id,
                ),
            None => forall|k: int|
                from <= k < slots.len() ==> !begins_at(#[trigger] slots[k], time, length)
                    || is_placed(slots, placed, slots[k].id),
        },
    decreases slots.len() - from,
{
    if from < slots.len() {
        lemma_first_free(slots, placed, time, length, from + 1);
    }
}

pub(crate) proof fn lemma_placements_prefix(
    slots: Seq<AdSlot>,
    times: Seq<int>,
    lengths: Seq<int>,
    k: int,
    n: int,
)
    requires
        0 <= k <= n,
    ensures
        placements(slots, times, lengths, n).len() == n,
        placements(slots, times, lengths, k) == placements(slots, times, lengths, n).take(k),
    decreases n,
{
    if k < n {
        lemma_placements_prefix(slots, times, lengths, k, n - 1);
        assert(placements(slots, times, lengths, n).take(k) =~= placements(
            slots,
            times,
            lengths,
            n - 1,
        ).take(k));
    } else if n > 0 {
        lemma_placements_prefix(slots, times, lengths, n - 1, n - 1);
        assert(placements(slots, times, lengths, n).take(n) =~= placements(
            slots,
            times,
            lengths,
            n,
        ));
    } else {
        assert(placements(slots, times, lengths, n).take(n) =~= placements(
            slots,
            times,
            lengths,
            n,
        ));
    }
}

/// A slot is placed at a segment that starts with or after it, and no later
/// than the segment is long.
pub proof fn placed_slots_begin_at_their_segment(
    slots: Seq<AdSlot>,
    times: Seq<int>,
    lengths: Seq<int>,
    n: int,
    i: int,
)
    requires
        0 <= i < n,
    ensures
        placements(slots, times, lengths, n)[i] matches Some(j) ==> 0 <= j < slots.len()
            && begins_at(slots[j], times[i], lengths[i]),
{
    lemma_placements_prefix(slots, times, lengths, i + 1, n);
    lemma_placements_prefix(slots, times, lengths, i, i + 1);
    lemma_first_free(
        slots,
        placements(slots, times, lengths, i),
        times[i],
        lengths[i],
        0,
    );
    assert(placements(slots, times, lengths, n)[i] == placements(slots, times, lengths, i + 1)[i]);
}

/// No slot is placed twice, even where several segments start at the same
/// time.
pub proof fn no_slot_is_placed_twice(
    slots: Seq<AdSlot>,
    times: Seq<int>,
    lengths: Seq<int>,
    n: int,
    i: int,
    k: int,
)
    requires
        0 <= i < k < n,
        placements(slots, times, lengths, n)[i] is Some,
        placements(slots, times, lengths, n)[k] is Some,
    ensures
        slots[placements(slots, times, lengths, n)[i]->0].id != slots[placements(
            slots,
            times,
            lengths,
            n,
        )[k]->0].id,
{
    let all = placements(slots, times, lengths, n);
    let before = placements(slots, times, lengths, k);
    lemma_placements_prefix(slots, times, lengths, k + 1, n);
    lemma_placements_prefix(slots, times, lengths, k, n);
    lemma_first_free(slots, before, times[k], lengths[k], 0);
    assert(all[k] == placements(slots, times, lengths, k + 1)[k]);
    assert(before[i] == all[i]);
}

/// A slot that begins at a segment is placed there or was placed before,
/// unless the segment is given an earlier slot of the list.
pub proof fn every_slot_finds_its_segment(
    slots: Seq<AdSlot>,
    times: Seq<int>,
    lengths: Seq<int>,
    n: int,
    i: int,
    j: int,
)
    requires
        0 <= i < n,
        0 <= j < slots.len(),
        begins_at(slots[j], times[i], lengths[i]),
    ensures
        is_placed(slots, placements(slots, times, lengths, n), slots[j].id) || (placements(
            slots,
            times,
            lengths,
            n,
        )[i] matches Some(k) && k < j),
{
    let all = placements(slots, times, lengths, n);
    let before = placements(slots, times, lengths, i);
    lemma_placements_prefix(slots, times, lengths, i + 1, n);
    lemma_placements_prefix(slots, times, lengths, i, n);
    lemma_first_free(slots, before, times[i], lengths[i], 0);
    assert(all[i] == placements(slots, times, lengths, i + 1)[i]);
    if is_placed(slots, before, slots[j].id) {
        let k = choose|k: int|
            0 <= k < before.len() && (#[trigger] before[k]) is Some && slots[before[k]->0].id
                == slots[j].id;
        assert(all[k] == before[k]);
    } else if all[i] == Some(j) {
        assert(all[i] is Some);
    }
}

/// An asked-for break stays available until it has ended, however often a
/// playlist is served, and is dropped after.
pub proof fn a_break_stays_until_it_ends(
    available: Set<AdSlot>,
    config: ServerConfig,
    slots: Seq<AdSlot>,
    start: int,
    slot: AdSlot,
)
    requires
        config.insertion_mode == InsertionMode::Dynamic,
        available.contains(slot),
    ensures
        remaining_slots(available, config, slots, start).contains(slot) <==> slot.end() >= start,
{
}

/// Serving the same window again leaves the available slots as they are: who
/// asks second finds what who asked first found.
pub proof fn eviction_is_idempotent(
    available: Set<AdSlot>,
    config: ServerConfig,
    slots: Seq<AdSlot>,
    start: int,
)
    requires
        config.insertion_mode == InsertionMode::Dynamic,
    ensures
        remaining_slots(
            remaining_slots(available, config, slots, start),
            config,
            slots,
            start,
        ) == remaining_slots(available, config, slots, start),
{
    assert(remaining_slots(
        remaining_slots(available, config, slots, start),
        config,
        slots,
        start,
    ) =~= remaining_slots(available, config, slots, start));
}

/// Every viewer of a window gets a break that has not ended at its start, not
/// only the first who asks: the break is placed for the second request too,
/// where it is the only one that begins at a segment of the window.
pub proof fn every_viewer_gets_the_break(
    window: MediaView,
    first_reply: MediaView,
    second_reply: MediaView,
    config: ServerConfig,
    available: Set<AdSlot>,
    available_after_first: Set<AdSlot>,
    available_after_second: Set<AdSlot>,
    first_slots: Seq<AdSlot>,
    second_slots: Seq<AdSlot>,
    first_zones: Seq<i32>,
    second_zones: Seq<i32>,
    slot: AdSlot,
    i: int,
)
    requires
        config.insertion_mode == InsertionMode::Dynamic,
        0 <= i < window.segments.len(),
        lists(first_slots, available),
        lists(second_slots, available_after_first),
        is_inserted(
            window,
            first_reply,
            config,
            available,
            available_after_first,
            first_slots,
            first_zones,
        ),
        is_inserted(
            window,
            second_reply,
            config,
            available_after_first,
            available_after_second,
            second_slots,
            second_zones,
        ),
        available.contains(slot),
        slot.end() >= times_of(window)[0],
        begins_at(slot, times_of(window)[i], lengths(window.segments)[i]),
        forall|other: AdSlot| #[trigger]
            available.contains(other) && begins_at(
                other,
                times_of(window)[i],
                lengths(window.segments)[i],
            ) ==> other == slot,
    ensures
        ({
            let times = times_of(window);
            let n = window.segments.len() as int;
            &&& is_placed(
                first_slots,
                placements(first_slots, times, lengths(window.segments), n),
                slot.id,
            )
            &&& is_placed(
                second_slots,
                placements(second_slots, times, lengths(window.segments), n),
                slot.id,
            )
        }),
{
    let times = times_of(window);
    let n = window.segments.len() as int;
    lemma_single_slot_is_placed(available, first_slots, times, lengths(window.segments), n, slot, i);
    lemma_single_slot_is_placed(
        available_after_first,
        second_slots,
        times,
        lengths(window.segments),
        n,
        slot,
        i,
    );
}

/// Whether two lists of time zones are the same at each discontinuity that
/// lacks a date.
pub open spec fn same_zones(window: MediaView, a: Seq<i32>, b: Seq<i32>) -> bool {
    forall|i: int|
        0 <= i < window.segments.len() && lacks_date_time(#[trigger] window.segments[i]) ==> a[i]
            == b[i]
}

/// Slots that are placed in the same order give the same reply, where the
/// machine's time zone is the same at each discontinuity that lacks a date.
pub proof fn same_slots_give_the_same_reply(
    window: MediaView,
    config: ServerConfig,
    slots: Seq<AdSlot>,
    first_zones: Seq<i32>,
    second_zones: Seq<i32>,
)
    requires
        same_zones(window, first_zones, second_zones),
    ensures
        filled(window, config, slots, times_of(window), first_zones) == filled(
            window,
            config,
            slots,
            times_of(window),
            second_zones,
        ),
{
    let first = dated_segments(window.segments, times_of(window), first_zones);
    let second = dated_segments(window.segments, times_of(window), second_zones);
    assert forall|i: int| 0 <= i < window.segments.len() implies first[i] == second[i] by {
        assert(lacks_date_time(window.segments[i]) ==> first_zones[i] == second_zones[i]);
    }
    assert(first =~= second);
}

/// A second viewer who asks for the same window within a break gets the same
/// date range as the first, and the break stays available. The whole reply is
/// the same, unless a discontinuity lacks a date and the machine's time zone
/// has changed there.
pub proof fn a_second_viewer_gets_the_same_reply(
    window: MediaView,
    first_reply: MediaView,
    second_reply: MediaView,
    config: ServerConfig,
    available_after_first: Set<AdSlot>,
    available_after_second: Set<AdSlot>,
    first_slots: Seq<AdSlot>,
    second_slots: Seq<AdSlot>,
    first_zones: Seq<i32>,
    second_zones: Seq<i32>,
    slot: AdSlot,
)
    requires
        config.insertion_mode == InsertionMode::Dynamic,
        lists(first_slots, set![slot]),
        lists(second_slots, available_after_first),
        is_inserted(
            window,
            first_reply,
            config,
            set![slot],
            available_after_first,
            first_slots,
            first_zones,
        ),
        is_inserted(
            window,
            second_reply,
            config,
            available_after_first,
            available_after_second,
            second_slots,
            second_zones,
        ),
        slot.end() >= times_of(window)[0],
    ensures
        second_reply.inserted == first_reply.inserted,
        same_zones(window, first_zones, second_zones) ==> second_reply == first_reply,
        available_after_first == set![slot],
        available_after_second == set![slot],
{
    assert(available_after_first =~= set![slot]);
    assert(available_after_second =~= set![slot]);
    lemma_lists_one(first_slots, slot);
    lemma_lists_one(second_slots, slot);
    if same_zones(window, first_zones, second_zones) {
        same_slots_give_the_same_reply(window, config, first_slots, first_zones, second_zones);
    }
}

proof fn lemma_lists_one(slots: Seq<AdSlot>, slot: AdSlot)
    requires
        lists(slots, set![slot]),
    ensures
        slots == seq![slot],
{
    assert(set![slot].contains(slot));
    assert(slots.contains(slot));
    assert forall|i: int| 0 <= i < slots.len() implies slots[i] == slot by {
        assert(slots.contains(slots[i]));
    }
    assert(slots.len() == 1) by {
        if slots.len() > 1 {
            assert(slots[0] == slots[1]);
        }
    }
    assert(slots =~= seq![slot]);
}

proof fn lemma_single_slot_is_placed(
    available: Set<AdSlot>,
    slots: Seq<AdSlot>,
    times: Seq<int>,
    lengths: Seq<int>,
    n: int,
    slot: AdSlot,
    i: int,
)
    requires
        0 <= i < n,
        lists(slots, available),
        available.contains(slot),
        begins_at(slot, times[i], lengths[i]),
        forall|other: AdSlot| #[trigger]
            available.contains(other) && begins_at(other, times[i], lengths[i]) ==> other == slot,
    ensures
        is_placed(slots, placements(slots, times, lengths, n), slot.id),
{
    let all = placements(slots, times, lengths, n);
    assert(slots.contains(slot));
    let j = choose|j: int| 0 <= j < slots.len() && slots[j] == slot;
    every_slot_finds_its_segment(slots, times, lengths, n, i, j);
    placed_slots_begin_at_their_segment(slots, times, lengths, n, i);
    lemma_placements_prefix(slots, times, lengths, n, n);
    if all[i] is Some {
        let k = all[i]->0;
        assert(slots.contains(slots[k]));
        assert(available.contains(slots[k]));
    }
}

/// Skipping is forbidden exactly where no skip button is offered, and a skip
/// button is offered exactly where one is configured that appears before the
/// break ends. Jumping over the break is always forbidden.
pub proof fn restrictions_follow_the_skip_control(
    config: ServerConfig,
    vod: bool,
    slot: AdSlot,
)
    ensures
        ({
            let offered = config.skip_control_offset matches Some(offset) && offset
                < slot.duration;
            let attributes = interstitial(config, vod, slot).attributes;
            &&& attributes[1] == ("X-RESTRICT"@, AttributeView::Text(
                if offered {
                    "JUMP"@
                } else {
                    "SKIP,JUMP"@
                },
            ))
            &&& offered <==> attributes.contains(
                (
                    "X-SKIP-CONTROL-OFFSET"@,
                    AttributeView::Number(config.skip_control_offset->0),
                ),
            ) && config.skip_control_offset is Some
        }),
{
    let attributes = interstitial(config, vod, slot).attributes;
    let skip = skip_control(config, slot.duration);
    let wanted = (
        "X-SKIP-CONTROL-OFFSET"@,
        AttributeView::Number(config.skip_control_offset->0),
    );
    if skip is Some {
        assert(attributes[attributes.len() - 2] == wanted);
    } else {
        assert(skip_attributes(skip) =~= seq![]);
        reveal_strlit("X-ASSET-LIST");
        reveal_strlit("X-RESTRICT");
        reveal_strlit("X-RESUME-OFFSET");
        reveal_strlit("X-SNAP");
        reveal_strlit("X-SKIP-CONTROL-OFFSET");
        assert("X-ASSET-LIST"@.len() == 12);
        assert("X-RESTRICT"@.len() == 10);
        assert("X-RESUME-OFFSET"@.len() == 15);
        assert("X-SNAP"@.len() == 6);
        assert("X-SKIP-CONTROL-OFFSET"@.len() == 21);
        assert(attributes.len() == 4);
        assert forall|i: int| 0 <= i < 4 implies attributes[i] != wanted by {
            assert(attributes[i].0.len() < 21);
        }
    }
}

/// The fixed breaks start one cycle after the reference point, and then one
/// cycle after each other; there are as many as asked for.
pub proof fn fixed_breaks_are_a_cycle_apart(
    slots: Seq<AdSlot>,
    ad_duration: u64,
    every: u64,
    number: u64,
    date_time: Timestamp,
    i: int,
)
    requires
        is_static_schedule(slots, ad_duration, every, number, date_time),
        number * every <= LONGEST_SCHEDULE,
        -2 * FAR <= date_time.nanos <= 2 * FAR,
        0 <= i < number,
    ensures
        slots.len() == number,
        slots[i].index == i + 1,
        slots[i].duration == ad_duration,
        slots[0].start_time.nanos == date_time.nanos + every * SECOND,
        i > 0 ==> slots[i].start_time.nanos == slots[i - 1].start_time.nanos + every * SECOND,
{
    assert(slots[i] == static_slot(ad_duration, every, date_time, i + 1, (slots[i].id, slots[i].zone)));
    assert(slots[0] == static_slot(ad_duration, every, date_time, 1, (slots[0].id, slots[0].zone)));
    assert((i + 1) * every <= number * every) by (nonlinear_arith)
        requires
            i + 1 <= number,
    ;
    assert(0 <= (i + 1) * every) by (nonlinear_arith)
        requires
            0 <= i,
    ;
    assert(1 * every <= number * every) by (nonlinear_arith)
        requires
            1 <= number,
    ;
    if i > 0 {
        let mark = (slots[i - 1].id, slots[i - 1].zone);
        assert(slots[i - 1] == static_slot(ad_duration, every, date_time, i, mark));
        assert((i + 1) * every == i * every + every) by (nonlinear_arith);
        assert(0 <= i * every) by (nonlinear_arith)
            requires
                0 <= i,
        ;
    }
}

/// A playlist without date and time tags takes no interstitials: it and the
/// available slots stay as they are.
pub proof fn an_undated_playlist_takes_nothing(m: MediaView, config: ServerConfig)
    requires
        forall|i: int|
            0 <= i < m.segments.len() ==> (#[trigger] m.segments[i]).program_date_time is None,
    ensures
        !takes_interstitials(m, config),
{
    lemma_no_tags(m.segments);
}

proof fn lemma_no_tags(segments: Seq<SegmentView>)
    requires
        forall|i: int|
            0 <= i < segments.len() ==> (#[trigger] segments[i]).program_date_time is None,
    ensures
        first_date_time(segments) is None,
    decreases segments.len(),
{
    if segments.len() > 0 {
        let more = segments.skip(1);
        assert forall|i: int| 0 <= i < more.len() implies (
        #[trigger] more[i]).program_date_time is None by {
            assert(more[i] == segments[i + 1]);
        }
        assert(segments[0].program_date_time is None);
        lemma_no_tags(more);
    }
}

/// Where the identifiers of the fixed breaks are distinct, and no segment is
/// longer than the time between two breaks, every break that begins at a
/// segment is placed.
pub proof fn distinct_identifiers_place_every_break(
    ad_duration: u64,
    every: u64,
    marks: Seq<(u128, i32)>,
    date_time: Timestamp,
    times: Seq<int>,
    lengths: Seq<int>,
    n: int,
    i: int,
    j: int,
)
    requires
        forall|a: int, b: int|
            0 <= a < b < marks.len() ==> (#[trigger] marks[a]).0 != (#[trigger] marks[b]).0,
        marks.len() * every <= LONGEST_SCHEDULE,
        -2 * FAR <= date_time.nanos <= 2 * FAR,
        0 <= i < n,
        0 <= j < marks.len(),
        lengths[i] <= every * SECOND,
        begins_at(
            static_slots(ad_duration, every, marks, date_time)[j],
            times[i],
            lengths[i],
        ),
    ensures
        placements(static_slots(ad_duration, every, marks, date_time), times, lengths, n).contains(
            Some(j),
        ),
{
    let slots = static_slots(ad_duration, every, marks, date_time);
    let all = placements(slots, times, lengths, n);
    every_slot_finds_its_segment(slots, times, lengths, n, i, j);
    lemma_placements_prefix(slots, times, lengths, n, n);
    if is_placed(slots, all, slots[j].id) {
        let k = choose|k: int|
            0 <= k < all.len() && (#[trigger] all[k]) is Some && slots[all[k]->0].id
                == slots[j].id;
        placed_slots_begin_at_their_segment(slots, times, lengths, n, k);
        assert(marks[all[k]->0].0 == marks[j].0);
        assert(all[k] == Some(j));
    } else {
        let k = all[i]->0;
        placed_slots_begin_at_their_segment(slots, times, lengths, n, i);
        lemma_static_start(ad_duration, every, marks, date_time, j);
        lemma_static_start(ad_duration, every, marks, date_time, k);
        assert((j + 1) * every >= (k + 1) * every + every) by (nonlinear_arith)
            requires
                k + 1 <= j,
        ;
        assert(false);
    }
}

proof fn lemma_static_start(
    ad_duration: u64,
    every: u64,
    marks: Seq<(u128, i32)>,
    date_time: Timestamp,
    j: int,
)
    requires
        marks.len() * every <= LONGEST_SCHEDULE,
        -2 * FAR <= date_time.nanos <= 2 * FAR,
        0 <= j < marks.len(),
    ensures
        static_slots(ad_duration, every, marks, date_time)[j].start_time.nanos == date_time.nanos + (
        j + 1) * every * SECOND,
{
    assert((j + 1) * every <= marks.len() * every) by (nonlinear_arith)
        requires
            j + 1 <= marks.len(),
    ;
    assert(0 <= (j + 1) * every) by (nonlinear_arith)
        requires
            0 <= j,
    ;
}

} // verus!

//! The live edge: the time at which the newest segment of a stream ends.

use vstd::prelude::*;

use crate::config::{ServerConfig, TestAsset};
use crate::hls::{media_contents, option_text, playlist_kind, read_master, read_media,
    segment_views, segments, spec_read_master, spec_read_media, variant_views, variants,
    MediaView, PlaylistKind, Segment, SegmentView, Span, Variant, VariantView};
use crate::text::{contains, has_part};
use crate::time::{span_nanos, to_nanos, Timestamp, FAR, FIRST_SECOND, LAST_SECOND, MILLISECOND};
use crate::timeline::{calculate_expected_program_date_time_list, expected_times,
    find_program_datetime_tag, first_date_time, is_measurable, lemma_total_prefix, measurable,
    time_views, total_nanos, total_seconds};
use crate::web::{join_url, joined_url, parse_url, url_of};

verus! {

/// The longest segment that the live edge is moved by, in nanoseconds: chrono
/// counts lengths of time in milliseconds, in 64 bits.
pub const LONGEST_STEP: i128 = 9_223_372_036_854_775_807_000_000;

/// How far the end of a segment lies from its start. A segment that is too
/// long for chrono counts as nothing.
pub open spec fn step(duration: Span) -> int {
    if span_nanos(duration) <= LONGEST_STEP {
        span_nanos(duration)
    } else {
        0
    }
}

/// The end of the last segment, in milliseconds since the Unix epoch, rounded
/// down. It is known where a segment says when it starts.
pub open spec fn live_edge_millis(segments: Seq<SegmentView>) -> Option<int> {
    match first_date_time(segments) {
        Some(seed) => Some(
            (expected_times(segments, seed.nanos as int).last() + step(segments.last().duration)) / (
            MILLISECOND as int),
        ),
        None => None,
    }
}

/// The live edge that is remembered after a playlist was seen; `last_seen`
/// where the playlist does not tell.
pub open spec fn seen_live_edge(segments: Seq<SegmentView>, last_seen: i64) -> i64 {
    match live_edge_millis(segments) {
        Some(millis) => if i64::MIN <= millis <= i64::MAX {
            millis as i64
        } else {
            last_seen
        },
        None => last_seen,
    }
}

proof fn lemma_first_date_time(segments: Seq<SegmentView>)
    ensures
        first_date_time(segments) is Some ==> segments.len() > 0,
{
}

/// The remembered live edge is updated from the segments of a playlist, where
/// they tell.
pub fn update_last_seen_pdt(all: &Vec<Segment>, last_seen_pdt: &mut i64) -> (r: bool)
    requires
        measurable(segment_views(all@)),
    ensures
        r == (live_edge_millis(segment_views(all@)) matches Some(millis) && i64::MIN <= millis
            <= i64::MAX),
        *final(last_seen_pdt) == seen_live_edge(segment_views(all@), *old(last_seen_pdt)),
{
    let ghost views = segment_views(all@);
    if let Some(seed) = find_program_datetime_tag(all) {
        let times = calculate_expected_program_date_time_list(all, seed);
        proof {
            lemma_first_date_time(views);
            assert(times@.len() == time_views(times@).len());
            assert(time_views(times@).last() == times@.last().nanos);
            lemma_total_prefix(views, views.len() as int);
            assert(views.take(views.len() as int) == views);
            lemma_total_prefix(views, views.len() - 1);
            assert(views.last() == all@.last()@);
        }
        let last = all.len() - 1;
        let length = to_nanos(all[last].duration);
        assert(length <= FAR) by {
            assert(views.take(views.len() as int) == views);
            lemma_total_prefix(views, views.len() - 1);
            assert(total_nanos(views) == total_nanos(views.drop_last()) + length);
            assert(views.drop_last() == views.take(views.len() - 1));
        }
        let moved = if length <= LONGEST_STEP { length } else { 0 };
        let edge = times[last].nanos + moved;
        // Counted from far before, so that nothing is negative.
        let shift: i128 = 100_000_000_000_000_000_000_000;
        let millis = (edge + shift * MILLISECOND) / MILLISECOND - shift;
        assert(millis == edge as int / MILLISECOND as int);
        if i64::MIN as i128 <= millis && millis <= i64::MAX as i128 {
            *last_seen_pdt = millis as i64;
            return true;
        }
    }
    false
}

/// The segments of the playlist that the origin sent, where it sent one that
/// can be reckoned with.
pub open spec fn fetched_segments(text: Option<Seq<char>>) -> Option<Seq<SegmentView>> {
    match text {
        Some(text) => match spec_read_media(text) {
            Some(m) => if measurable(m.segments) {
                Some(m.segments)
            } else {
                None
            },
            None => None,
        },
        None => None,
    }
}

/// The point in time that a remembered live edge stands for.
pub open spec fn millis_time(millis: i64) -> Option<Timestamp> {
    if FIRST_SECOND * 1000 <= millis < (LAST_SECOND + 1) * 1000 {
        Some(Timestamp { nanos: (millis * MILLISECOND) as i128 })
    } else {
        None
    }
}

/// The live edge that the origin tells, in milliseconds: that of the playlist
/// that it sent, where it sent one with a date.
pub open spec fn fetched_edge(text: Option<Seq<char>>) -> Option<i64> {
    match fetched_segments(text) {
        Some(segments) => match live_edge_millis(segments) {
            Some(millis) => if i64::MIN <= millis <= i64::MAX {
                Some(millis as i64)
            } else {
                None
            },
            None => None,
        },
        None => None,
    }
}

/// The live edge that is remembered after the origin was asked.
pub open spec fn refreshed(text: Option<Seq<char>>, last_seen: i64) -> i64 {
    match fetched_edge(text) {
        Some(edge) => edge,
        None => last_seen,
    }
}

/// The present of the stream: the live edge that the origin tells; where it
/// does not tell, the one that is remembered, of which 0 is none; else the
/// present by the clock.
pub open spec fn stream_now(text: Option<Seq<char>>, last_seen: i64, now: Timestamp) -> Timestamp {
    let edge = refreshed(text, last_seen);
    if (fetched_edge(text) is Some || last_seen != 0) && millis_time(edge) is Some {
        millis_time(edge)->0
    } else {
        now
    }
}

/// The present of the stream, where the origin was asked for its media
/// playlist and sent `text`.
pub fn choose_stream_now(text: &Option<String>, last_seen_pdt: &mut i64, now: Timestamp) -> (r:
    Timestamp)
    requires
        now.is_near(),
    ensures
        *final(last_seen_pdt) == refreshed(option_text(*text), *old(last_seen_pdt)),
        r == stream_now(option_text(*text), *old(last_seen_pdt), now),
        r.is_near(),
{
    let mut told = false;
    if let Some(text) = text {
        if let Some(playlist) = read_media(text.as_str()) {
            let all = segments(&playlist);
            if is_measurable(&all) {
                told = update_last_seen_pdt(&all, last_seen_pdt);
            }
        }
    }
    if told || *last_seen_pdt != 0 {
        if let Some(time) = Timestamp::from_millis(*last_seen_pdt) {
            return time;
        }
    }
    now
}

/// The present of the stream. The clock is asked where the origin does not
/// tell and nothing is remembered.
pub fn fetch_stream_now(text: &Option<String>, last_seen_pdt: &mut i64) -> (r: Timestamp)
    ensures
        *final(last_seen_pdt) == refreshed(option_text(*text), *old(last_seen_pdt)),
        exists|now: Timestamp|
            r == #[trigger] stream_now(option_text(*text), *old(last_seen_pdt), now),
        r.is_near(),
{
    let now = Timestamp::now();
    let r = choose_stream_now(text, last_seen_pdt, now);
    assert(r == stream_now(option_text(*text), *old(last_seen_pdt), now));
    r
}

/// The URL of the configured master playlist at the origin. There is none
/// where any stream of the origin is served.
pub open spec fn master_url(config: ServerConfig) -> Option<Seq<char>> {
    match config.master_playlist_path {
        Some(path) => if path@.len() == 0 {
            None
        } else {
            joined_url(config.forward_url@, path@)
        },
        None => None,
    }
}

pub fn find_master_url(config: &ServerConfig) -> (r: Option<String>)
    ensures
        option_text(r) == master_url(*config),
{
    match &config.master_playlist_path {
        Some(path) => if path.as_str().is_empty() {
            None
        } else {
            join_url(config.forward_url.as_str(), path.as_str())
        },
        None => None,
    }
}

/// The media playlist to follow, where the origin has `text` at `url`: the
/// first stream of a master playlist, or the playlist itself.
pub open spec fn media_playlist_url(text: Seq<char>, url: Seq<char>) -> Option<Seq<char>> {
    let first = match spec_read_master(text) {
        Some(m) => if m.variants.len() > 0 {
            Some(m.variants[0])
        } else {
            None
        },
        None => None,
    };
    match first {
        Some(VariantView::Stream(uri)) => joined_url(url, uri),
        _ => if spec_read_media(text) is Some {
            Some(url)
        } else {
            None
        },
    }
}

pub fn resolve_media_playlist_url(text: &str, url: &str) -> (r: Option<String>)
    ensures
        option_text(r) == media_playlist_url(text@, url@),
{
    if let Some(master) = read_master(text) {
        let all = variants(&master);
        let ghost views = variant_views(all@);
        if all.len() > 0 {
            assert(views[0] == all@[0]@);
            if let Variant::Stream(uri) = &all[0] {
                return join_url(url, uri.as_str());
            }
        }
        assert(views.len() == all@.len());
    }
    if read_media(text).is_some() {
        Some(url.to_string())
    } else {
        None
    }
}

/// Whether a URL or path is one of an HLS playlist.
pub open spec fn is_playlist_name(name: Seq<char>) -> bool {
    has_part(name, ".m3u8"@)
}

pub fn is_hls_playlist(name: &str) -> (r: bool)
    ensures
        r == is_playlist_name(name@),
{
    contains(name, ".m3u8")
}

/// Whether the origin can be proxied: `text` is what it has at `url`, the
/// master playlist.
pub fn inspect_master_playlist(url: &str, text: &str) -> (r: bool)
    ensures
        r == (is_playlist_name(url@) && spec_read_master(text@) is Some),
{
    is_hls_playlist(url) && read_master(text).is_some()
}

/// The URL of the test asset, in normal form; none where it is no playlist.
pub open spec fn test_asset_url(path: Seq<char>) -> Option<Seq<char>> {
    if is_playlist_name(path) {
        match url_of(path) {
            Some(url) => Some(url.text),
            None => None,
        }
    } else {
        None
    }
}

pub fn find_test_asset_url(path: &str) -> (r: Option<String>)
    ensures
        option_text(r) == test_asset_url(path@),
{
    if !is_hls_playlist(path) {
        return None;
    }
    match parse_url(path) {
        Some(url) => Some(url.text),
        None => None,
    }
}

/// The first stream of a list.
pub open spec fn first_stream(all: Seq<VariantView>) -> Option<Seq<char>>
    decreases all.len(),
{
    if all.len() == 0 {
        None
    } else {
        match all[0] {
            VariantView::Stream(uri) => Some(uri),
            VariantView::IFrame(_) => first_stream(all.skip(1)),
        }
    }
}

fn find_first_stream(all: &Vec<Variant>) -> (r: Option<String>)
    ensures
        option_text(r) == first_stream(variant_views(all@)),
{
    let ghost views = variant_views(all@);
    assert(views.skip(0) == views);
    for i in 0..all.len()
        invariant
            views == variant_views(all@),
            first_stream(views) == first_stream(views.skip(i as int)),
    {
        assert(views.skip(i as int)[0] == all@[i as int]@);
        assert(views.skip(i as int).skip(1) == views.skip(i + 1));
        if let Variant::Stream(uri) = &all[i] {
            return Some(uri.clone());
        }
    }
    None
}

/// Where the media playlist of a test asset is found.
#[derive(Debug)]
pub enum AssetMedia {
    /// It is what was read already.
    Here,
    /// It is at this URL.
    At(String),
    /// Nowhere.
    Missing,
}

pub enum AssetMediaView {
    Here,
    At(Seq<char>),
    Missing,
}

impl View for AssetMedia {
    type V = AssetMediaView;

    open spec fn view(&self) -> AssetMediaView {
        match self {
            AssetMedia::Here => AssetMediaView::Here,
            AssetMedia::At(url) => AssetMediaView::At(url@),
            AssetMedia::Missing => AssetMediaView::Missing,
        }
    }
}

/// Where the media playlist is of a test asset that has `text` at `url`.
pub open spec fn asset_media(text: Seq<char>, url: Seq<char>) -> AssetMediaView {
    match spec_read_master(text) {
        Some(m) => match first_stream(m.variants) {
            Some(uri) => match joined_url(url, uri) {
                Some(media_url) => AssetMediaView::At(media_url),
                None => AssetMediaView::Missing,
            },
            None => AssetMediaView::Missing,
        },
        None => AssetMediaView::Here,
    }
}

pub fn find_asset_media(text: &str, url: &str) -> (r: AssetMedia)
    ensures
        r@ == asset_media(text@, url@),
{
    match read_master(text) {
        Some(master) => match find_first_stream(&variants(&master)) {
            Some(uri) => match join_url(url, uri.as_str()) {
                Some(media_url) => AssetMedia::At(media_url),
                None => AssetMedia::Missing,
            },
            None => AssetMedia::Missing,
        },
        None => AssetMedia::Here,
    }
}

/// Whether a media playlist is a recording of fragmented MP4 segments: its
/// first segment has an initialization section, which stands for those after
/// it too, until there is another one.
pub open spec fn is_fragmented_vod(m: MediaView) -> bool {
    m.kind == Some(PlaylistKind::Vod) && m.segments.len() > 0 && m.segments[0].has_map
}

pub fn is_fragmented_mp4_vod_media_playlist(m3u8: &hls_m3u8::MediaPlaylist<'static>) -> (r: bool)
    ensures
        r == is_fragmented_vod(media_contents(*m3u8)),
{
    let all = segments(m3u8);
    let ghost views = segment_views(all@);
    assert(views.len() == all@.len());
    if playlist_kind(m3u8) != Some(PlaylistKind::Vod) || all.len() == 0 {
        return false;
    }
    assert(views[0] == all@[0]@);
    all[0].has_map
}

/// How long a test asset is, in seconds, whose media playlist is `text`: each
/// segment counts its whole seconds. It must be a recording of fragmented MP4
/// segments, and the sum must be one that can be counted.
pub open spec fn asset_duration(text: Seq<char>) -> Option<int> {
    match spec_read_media(text) {
        Some(m) => if is_fragmented_vod(m) && total_seconds(m.segments) <= u64::MAX {
            Some(total_seconds(m.segments))
        } else {
            None
        },
        None => None,
    }
}

fn sum_seconds(all: &Vec<Segment>) -> (r: Option<u64>)
    ensures
        match r {
            Some(sum) => sum == total_seconds(segment_views(all@)),
            None => total_seconds(segment_views(all@)) > u64::MAX,
        },
{
    let ghost views = segment_views(all@);
    let mut sum: u64 = 0;
    assert(views.take(0) == Seq::<SegmentView>::empty());
    for i in 0..all.len()
        invariant
            views == segment_views(all@),
            sum == total_seconds(views.take(i as int)),
    {
        assert(views.take(i + 1).drop_last() == views.take(i as int));
        assert(views.take(i + 1).last() == all@[i as int]@);
        proof {
            lemma_total_prefix(views, i + 1);
        }
        sum = match sum.checked_add(all[i].duration.secs) {
            Some(sum) => sum,
            None => return None,
        };
    }
    assert(views.take(views.len() as int) == views);
    Some(sum)
}

/// The test asset at `url` whose media playlist is `text`.
pub fn parse_test_asset_url(url: &str, text: &str) -> (r: Option<TestAsset>)
    ensures
        match r {
            Some(asset) => asset.url@ == url@ && asset_duration(text@) == Some(
                asset.duration as int,
            ),
            None => asset_duration(text@) is None,
        },
{
    match read_media(text) {
        Some(playlist) => {
            if !is_fragmented_mp4_vod_media_playlist(&playlist) {
                return None;
            }
            match sum_seconds(&segments(&playlist)) {
                Some(sum) => Some(TestAsset::new(url.to_string(), sum)),
                None => None,
            }
        },
        None => None,
    }
}

/// Where the origin tells the live edge, that is the present of the stream,
/// and it does not matter which one was remembered. Where it does not tell and
/// nothing is remembered, the clock decides.
pub proof fn the_origin_decides_the_live_edge(
    text: Option<Seq<char>>,
    a: i64,
    b: i64,
    now: Timestamp,
)
    ensures
        fetched_edge(text) matches Some(edge) ==> refreshed(text, a) == edge && refreshed(text, b)
            == edge,
        fetched_edge(text) matches Some(edge) ==> (millis_time(edge) matches Some(time)
            ==> stream_now(text, a, now) == time),
        fetched_edge(text) is None ==> refreshed(text, a) == a,
        fetched_edge(text) is None ==> stream_now(text, 0, now) == now,
        fetched_edge(text) is None && a != 0 ==> (millis_time(a) matches Some(time)
            ==> stream_now(text, a, now) == time),
{
}

} // verus!

//! Ads: the creatives of an ad server that can be played.

use vstd::prelude::*;

use crate::config::TestAsset;
use crate::hls::{option_text, LONGEST_SEGMENT};
use crate::ids::new_id;
use crate::live_edge::{is_hls_playlist, is_playlist_name};
use crate::text::{has_prefix, replace, replaced, starts_with};
use crate::time::Timestamp;
use crate::vast::{ad_views, all_creatives, creative_views, text_views, Creative, CreativeView,
    Linear, LinearView};

verus! {

/// An identifier of a creative, with the registry that gave it out.
#[derive(Debug)]
pub struct UniversalAdId {
    pub scheme: String,
    pub value: String,
}

/// An event that players report.
#[derive(Debug)]
pub struct Tracking {
    pub event: String,
    pub urls: Vec<String>,
    pub offset: Option<String>,
}

#[verifier::ext_equal]
pub struct TrackingView {
    pub event: Seq<char>,
    pub urls: Seq<Seq<char>>,
    pub offset: Option<Seq<char>>,
}

impl View for UniversalAdId {
    type V = (Seq<char>, Seq<char>);

    open spec fn view(&self) -> (Seq<char>, Seq<char>) {
        (self.scheme@, self.value@)
    }
}

impl View for Tracking {
    type V = TrackingView;

    open spec fn view(&self) -> TrackingView {
        TrackingView {
            event: self.event@,
            urls: text_views(self.urls@),
            offset: option_text(self.offset),
        }
    }
}

/// An ad that is played.
#[derive(Debug)]
pub struct Ad {
    pub ad_id: u128,
    pub universal_ad_ids: Vec<UniversalAdId>,
    /// How long it lasts, in seconds.
    pub duration: u64,
    pub url: String,
    pub requested_at: Timestamp,
    pub tracking: Vec<Tracking>,
}

#[verifier::ext_equal]
pub struct AdView {
    pub ad_id: u128,
    pub universal_ad_ids: Seq<(Seq<char>, Seq<char>)>,
    pub duration: u64,
    pub url: Seq<char>,
    pub requested_at: Timestamp,
    pub tracking: Seq<TrackingView>,
}

pub open spec fn ad_id_views(v: Seq<UniversalAdId>) -> Seq<(Seq<char>, Seq<char>)> {
    v.map_values(|u: UniversalAdId| u@)
}

pub open spec fn tracking_views(v: Seq<Tracking>) -> Seq<TrackingView> {
    v.map_values(|t: Tracking| t@)
}

impl View for Ad {
    type V = AdView;

    open spec fn view(&self) -> AdView {
        AdView {
            ad_id: self.ad_id,
            universal_ad_ids: ad_id_views(self.universal_ad_ids@),
            duration: self.duration,
            url: self.url@,
            requested_at: self.requested_at,
            tracking: tracking_views(self.tracking@),
        }
    }
}

/// The media files of a linear ad.
pub open spec fn media_urls(linear: LinearView) -> Seq<Seq<char>> {
    match linear.media_files {
        Some(files) => files,
        None => seq![],
    }
}

/// The events of a linear ad: each has one URL.
pub open spec fn trackings(linear: LinearView) -> Seq<TrackingView> {
    match linear.tracking_events {
        Some(events) => events.map_values(
            |e: (Seq<char>, Option<Seq<char>>, Seq<char>)|
                TrackingView { event: e.0, urls: seq![e.2], offset: e.1 },
        ),
        None => seq![],
    }
}

/// A linear ad without a duration lasts for no time.
pub open spec fn seconds(linear: LinearView) -> u64 {
    match linear.duration {
        Some(n) => n,
        None => 0,
    }
}

/// Whether a creative can be played: it is a linear ad with a media file.
pub open spec fn is_playable(c: CreativeView) -> bool {
    c.linear matches Some(linear) && media_urls(linear).len() > 0
}

/// Whether a creative can be played as it is: its media file is a playlist.
pub open spec fn is_transcoded(c: CreativeView) -> bool {
    is_playable(c) && is_playlist_name(media_urls(c.linear->0)[0])
}

/// Whether a creative has to be wrapped in a playlist to be played.
pub open spec fn is_raw(c: CreativeView) -> bool {
    is_playable(c) && !is_playlist_name(media_urls(c.linear->0)[0])
}

fn check_creative(creative: &Creative) -> (r: (bool, bool))
    ensures
        r.0 == is_raw(creative@),
        r.1 == is_transcoded(creative@),
{
    match &creative.linear {
        Some(linear) => match &linear.media_files {
            Some(files) => {
                if files.len() == 0 {
                    assert(text_views(files@).len() == 0);
                    return (false, false);
                }
                assert(text_views(files@)[0] == files@[0]@);
                let transcoded = is_hls_playlist(files[0].as_str());
                (!transcoded, transcoded)
            },
            None => (false, false),
        },
        None => (false, false),
    }
}

pub open spec fn ref_views(v: Seq<&Creative>) -> Seq<CreativeView> {
    v.map_values(|c: &Creative| c@)
}

/// The longest that a creative may last.
pub open spec fn is_short(c: CreativeView) -> bool {
    c.linear matches Some(linear) ==> seconds(linear) <= LONGEST_SEGMENT
}

pub open spec fn raw_creatives(all: Seq<CreativeView>) -> Seq<CreativeView> {
    all.filter(|c: CreativeView| is_raw(c))
}

pub open spec fn transcoded_creatives(all: Seq<CreativeView>) -> Seq<CreativeView> {
    all.filter(|c: CreativeView| is_transcoded(c))
}

/// The creatives of a document that can be played: the raw ones, and the
/// transcoded ones.
pub fn sort_creatives<'a>(ads: &'a Vec<Option<Vec<Creative>>>) -> (r: (
    Vec<&'a Creative>,
    Vec<&'a Creative>,
))
    requires
        forall|i: int, k: int|
            0 <= i < ads@.len() && ads@[i] is Some && 0 <= k < ads@[i]->0@.len() ==> is_short(
                (#[trigger] ads@[i]->0@[k])@,
            ),
    ensures
        ref_views(r.0@) == raw_creatives(all_creatives(ad_views(ads@))),
        ref_views(r.1@) == transcoded_creatives(all_creatives(ad_views(ads@))),
        forall|k: int| 0 <= k < r.0@.len() ==> is_short((#[trigger] r.0@[k])@),
        forall|k: int| 0 <= k < r.1@.len() ==> is_short((#[trigger] r.1@[k])@),
{
    let ghost views = ad_views(ads@);
    let mut raw: Vec<&'a Creative> = Vec::new();
    let mut transcoded: Vec<&'a Creative> = Vec::new();
    assert(views.take(0) == Seq::<Option<Seq<CreativeView>>>::empty());
    assert(ref_views(raw@) =~= raw_creatives(seq![]));
    assert(ref_views(transcoded@) =~= transcoded_creatives(seq![]));
    for i in 0..ads.len()
        invariant
            views == ad_views(ads@),
            forall|i: int, k: int|
                0 <= i < ads@.len() && ads@[i] is Some && 0 <= k < ads@[i]->0@.len() ==> is_short(
                    (#[trigger] ads@[i]->0@[k])@,
                ),
            ref_views(raw@) == raw_creatives(all_creatives(views.take(i as int))),
            ref_views(transcoded@) == transcoded_creatives(all_creatives(views.take(i as int))),
            forall|k: int| 0 <= k < raw@.len() ==> is_short((#[trigger] raw@[k])@),
            forall|k: int| 0 <= k < transcoded@.len() ==> is_short((#[trigger] transcoded@[k])@),
    {
        let ghost before = all_creatives(views.take(i as int));
        assert(views.take(i + 1).drop_last() == views.take(i as int));
        assert(views.take(i + 1).last() == views[i as int]);
        match &ads[i] {
            Some(creatives) => {
                let ghost here = creative_views(creatives@);
                assert(views[i as int] == Some(here));
                assert(before + here.take(0) =~= before);
                for k in 0..creatives.len()
                    invariant
                        here == creative_views(creatives@),
                        forall|k: int|
                            0 <= k < creatives@.len() ==> is_short((#[trigger] creatives@[k])@),
                        ref_views(raw@) == raw_creatives(before + here.take(k as int)),
                        ref_views(transcoded@) == transcoded_creatives(
                            before + here.take(k as int),
                        ),
                        forall|k: int| 0 <= k < raw@.len() ==> is_short((#[trigger] raw@[k])@),
                        forall|k: int|
                            0 <= k < transcoded@.len() ==> is_short((#[trigger] transcoded@[k])@),
                {
                    let ghost list = before + here.take(k as int);
                    let creative = &creatives[k];
                    let (is_raw_one, is_transcoded_one) = check_creative(creative);
                    proof {
                        assert(before + here.take(k + 1) =~= list.push(creative@));
                        lemma_filter_push(list, creative@, |c: CreativeView| is_raw(c));
                        lemma_filter_push(list, creative@, |c: CreativeView| is_transcoded(c));
                    }
                    let ghost raw_before = ref_views(raw@);
                    let ghost transcoded_before = ref_views(transcoded@);
                    assert(is_short(creatives@[k as int]@));
                    if is_raw_one {
                        raw.push(creative);
                        assert(ref_views(raw@) =~= raw_before.push(creative@));
                    }
                    if is_transcoded_one {
                        transcoded.push(creative);
                        assert(ref_views(transcoded@) =~= transcoded_before.push(creative@));
                    }
                }
                assert(here.take(here.len() as int) == here);
            },
            None => {
                assert(views[i as int] is None);
                assert(before + Seq::<CreativeView>::empty() =~= before);
            },
        }
    }
    assert(views.take(views.len() as int) == views);
    (raw, transcoded)
}

proof fn lemma_filter_push(
    list: Seq<CreativeView>,
    last: CreativeView,
    wanted: spec_fn(CreativeView) -> bool,
)
    ensures
        list.push(last).filter(wanted) == if wanted(last) {
            list.filter(wanted).push(last)
        } else {
            list.filter(wanted)
        },
{
    reveal(Seq::filter);
    assert(list.push(last).drop_last() == list);
}

/// The ad that a creative becomes.
pub open spec fn ad_of(c: CreativeView, id: u128, requested_at: Timestamp) -> AdView {
    let linear = c.linear->0;
    AdView {
        ad_id: id,
        universal_ad_ids: c.universal_ad_ids,
        duration: seconds(linear),
        url: media_urls(linear)[0],
        requested_at,
        tracking: trackings(linear),
    }
}

fn get_universal_ad_ids_from_creative(creative: &Creative) -> (r: Vec<UniversalAdId>)
    ensures
        ad_id_views(r@) == creative@.universal_ad_ids,
{
    let mut r: Vec<UniversalAdId> = Vec::new();
    for i in 0..creative.universal_ad_ids.len()
        invariant
            r@.len() == i,
            forall|k: int|
                0 <= k < i ==> (#[trigger] r@[k])@ == (
                    creative.universal_ad_ids@[k].0@,
                    creative.universal_ad_ids@[k].1@,
                ),
    {
        let (scheme, value) = &creative.universal_ad_ids[i];
        r.push(UniversalAdId { scheme: scheme.clone(), value: value.clone() });
    }
    assert(ad_id_views(r@) =~= creative@.universal_ad_ids);
    r
}

fn get_trackings(linear: &Linear) -> (r: Vec<Tracking>)
    ensures
        tracking_views(r@) == trackings(linear@),
{
    let mut r: Vec<Tracking> = Vec::new();
    if let Some(events) = &linear.tracking_events {
        for i in 0..events.len()
            invariant
                linear.tracking_events == Some(*events),
                r@.len() == i,
                forall|k: int|
                    0 <= k < i ==> (#[trigger] r@[k])@ == (TrackingView {
                        event: events@[k].0@,
                        urls: seq![events@[k].2@],
                        offset: option_text(events@[k].1),
                    }),
        {
            let (event, offset, uri) = &events[i];
            let mut urls: Vec<String> = Vec::new();
            urls.push(uri.clone());
            assert(text_views(urls@) =~= seq![uri@]);
            let offset = match offset {
                Some(text) => Some(text.clone()),
                None => None,
            };
            r.push(Tracking { event: event.clone(), urls, offset });
        }
    }
    assert(tracking_views(r@) =~= trackings(linear@));
    r
}

/// How long a linear ad lasts, its first media file, and its events.
fn get_duration_and_media_url_and_tracking_events_from_linear(linear: &Linear) -> (r: (
    u64,
    String,
    Vec<Tracking>,
))
    requires
        media_urls(linear@).len() > 0,
    ensures
        r.0 == seconds(linear@),
        r.1@ == media_urls(linear@)[0],
        tracking_views(r.2@) == trackings(linear@),
{
    let duration = match linear.duration {
        Some(n) => n,
        None => 0,
    };
    let files = linear.media_files.as_ref().unwrap();
    assert(media_urls(linear@)[0] == files@[0]@);
    let url = files[0].clone();
    (duration, url, get_trackings(linear))
}

/// The ad that a creative becomes, with the given identifier and time.
pub fn make_ad(creative: &Creative, ad_id: u128, requested_at: Timestamp) -> (r: Ad)
    requires
        is_playable(creative@),
    ensures
        r@ == ad_of(creative@, ad_id, requested_at),
{
    let universal_ad_ids = get_universal_ad_ids_from_creative(creative);
    let linear = creative.linear.as_ref().unwrap();
    let (duration, url, tracking) = get_duration_and_media_url_and_tracking_events_from_linear(
        linear,
    );
    Ad { ad_id, universal_ad_ids, duration, url, requested_at, tracking }
}

/// The ad that a creative becomes, with a new identifier, at the present.
pub fn make_new_ad_from_creative(creative: &Creative) -> (r: Ad)
    requires
        is_playable(creative@),
    ensures
        r@ == ad_of(creative@, r.ad_id, r.requested_at),
{
    make_ad(creative, new_id(), Timestamp::now())
}

/// A URL that is asked for over TLS.
pub open spec fn secured(url: Seq<char>) -> Seq<char> {
    if has_prefix(url, "http://"@) {
        replaced(url, "http://"@, "https://"@)
    } else {
        url
    }
}

pub open spec fn secured_tracking(t: TrackingView) -> TrackingView {
    TrackingView { urls: t.urls.map_values(|url: Seq<char>| secured(url)), ..t }
}

/// An ad with the test asset in place of its own media file.
pub open spec fn with_test_asset(ad: AdView, asset: TestAsset) -> AdView {
    AdView {
        url: asset.url@,
        duration: asset.duration,
        tracking: ad.tracking.map_values(|t: TrackingView| secured_tracking(t)),
        ..ad
    }
}

fn secure_tracking(tracking: &Tracking) -> (r: Tracking)
    ensures
        r@ == secured_tracking(tracking@),
{
    proof {
        reveal_strlit("http://");
        assert("http://"@.len() == 7);
    }
    let mut urls: Vec<String> = Vec::new();
    for i in 0..tracking.urls.len()
        invariant
            "http://"@.len() == 7,
            urls@.len() == i,
            forall|k: int| 0 <= k < i ==> (#[trigger] urls@[k])@ == secured(tracking.urls@[k]@),
    {
        let url = tracking.urls[i].as_str();
        urls.push(
            if starts_with(url, "http://") {
                replace(url, "http://", "https://")
            } else {
                url.to_string()
            },
        );
    }
    let offset = match &tracking.offset {
        Some(text) => Some(text.clone()),
        None => None,
    };
    assert(text_views(urls@) =~= secured_tracking(tracking@).urls);
    Tracking { event: tracking.event.clone(), urls, offset }
}

/// The ad that a creative becomes where a test asset is configured.
pub fn make_test_ad(
    creative: &Creative,
    test_asset: &TestAsset,
    ad_id: u128,
    requested_at: Timestamp,
) -> (r: Ad)
    requires
        is_playable(creative@),
    ensures
        r@ == with_test_asset(ad_of(creative@, ad_id, requested_at), *test_asset),
{
    let ad = make_ad(creative, ad_id, requested_at);
    let mut tracking: Vec<Tracking> = Vec::new();
    for i in 0..ad.tracking.len()
        invariant
            tracking@.len() == i,
            forall|k: int|
                0 <= k < i ==> (#[trigger] tracking@[k])@ == secured_tracking(ad.tracking@[k]@),
    {
        tracking.push(secure_tracking(&ad.tracking[i]));
    }
    let r = Ad {
        ad_id: ad.ad_id,
        universal_ad_ids: ad.universal_ad_ids,
        duration: test_asset.duration,
        url: test_asset.url.clone(),
        requested_at: ad.requested_at,
        tracking,
    };
    assert(r@.tracking =~= with_test_asset(ad@, *test_asset).tracking);
    r
}

/// The ad that a creative becomes where a test asset is configured, with a new
/// identifier, at the present.
pub fn make_test_ad_from_creative(creative: &Creative, test_asset: &TestAsset) -> (r: Ad)
    requires
        is_playable(creative@),
    ensures
        r@ == with_test_asset(ad_of(creative@, r.ad_id, r.requested_at), *test_asset),
{
    make_test_ad(creative, test_asset, new_id(), Timestamp::now())
}

} // verus!

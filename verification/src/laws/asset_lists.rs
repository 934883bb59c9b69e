//! Laws of asset lists: which ads a player is told of, where each is found and
//! when it starts, and how a player gets an ad that is kept.

use vstd::prelude::*;

use crate::ads::{ad_of, is_raw, is_transcoded, raw_creatives, secured, transcoded_creatives,
    with_test_asset, AdView, TrackingView};
use crate::assets::{ad_asset_json, assets_json, can_wrap, has_free_ids, has_ids, identifier_json,
    is_wrapped, kept, kept_playlist, raw_ads, raw_duration, signaling, slot_payload,
    test_asset_list, total_duration, tracking_json, transcoded_ads, with_kept, wraps};
use crate::config::TestAsset;
use crate::ids::{id_text, read_id};
use crate::json_value::{pretty_text, Tree};
use crate::stores::KeptAdView;
use crate::text::{decimal, has_part, has_prefix, occurs_at, replaced};
use crate::time::Timestamp;
use crate::vast::{ads_of, all_creatives, creatives_of, short_times, CreativeView};
use crate::web::{before_query, form_bytes, has_fragment, url_of, url_with_pairs};

verus! {

/// The value of the first member of that name.
pub open spec fn lookup(members: Seq<(Seq<char>, Tree)>, key: Seq<char>) -> Option<Tree>
    decreases members.len(),
{
    if members.len() == 0 {
        None
    } else if members[0].0 == key {
        Some(members[0].1)
    } else {
        lookup(members.skip(1), key)
    }
}

/// What an object has under a key.
pub open spec fn under(t: Tree, key: Seq<char>) -> Tree {
    match t {
        Tree::Object(members) => match lookup(members, key) {
            Some(value) => value,
            None => Tree::Null,
        },
        _ => Tree::Null,
    }
}

/// The assets of an asset list.
pub open spec fn assets_in(list: Tree) -> Seq<Tree> {
    under(list, "ASSETS"@)->Array_0
}

/// What is told of an asset, or of a whole pod, beside its place and length.
pub open spec fn payload(t: Tree) -> Tree {
    under(under(t, "X-AD-CREATIVE-SIGNALING"@), "payload"@)
}

pub(crate) proof fn lemma_lookup(members: Seq<(Seq<char>, Tree)>, key: Seq<char>, i: int)
    requires
        0 <= i < members.len(),
        members[i].0 == key,
        forall|k: int| 0 <= k < i ==> (#[trigger] members[k]).0 != key,
    ensures
        lookup(members, key) == Some(members[i].1),
    decreases members.len(),
{
    if i > 0 {
        assert(members[0].0 != key);
        let rest = members.skip(1);
        assert(rest[i - 1] == members[i]);
        assert forall|k: int| 0 <= k < i - 1 implies (#[trigger] rest[k]).0 != key by {
            assert(rest[k] == members[k + 1]);
        }
        lemma_lookup(rest, key, i - 1);
    }
}

proof fn lemma_signaling(kind: Seq<char>, inner: Tree)
    ensures
        under(signaling(kind, inner), "version"@) == Tree::Number(2),
        under(signaling(kind, inner), "type"@) == Tree::Text(kind),
        under(signaling(kind, inner), "payload"@) == inner,
{
    reveal_strlit("version");
    reveal_strlit("type");
    reveal_strlit("payload");
    assert("version"@.len() == 7);
    assert("type"@.len() == 4);
    assert("payload"@.len() == 7);
    assert("version"@[0] != "payload"@[0]);
    let members = signaling(kind, inner)->Object_0;
    lemma_lookup(members, "version"@, 0);
    lemma_lookup(members, "type"@, 1);
    lemma_lookup(members, "payload"@, 2);
}

proof fn lemma_payload(ad: AdView, start: nat)
    ensures
        ({
            let p = slot_payload(ad, start);
            &&& under(p, "type"@) == Tree::Text("linear"@)
            &&& under(p, "start"@) == Tree::Number(start)
            &&& under(p, "duration"@) == Tree::Number(ad.duration as nat)
            &&& under(p, "identifiers"@) == Tree::Array(
                ad.universal_ad_ids.map_values(|id: (Seq<char>, Seq<char>)| identifier_json(id)),
            )
            &&& under(p, "tracking"@) == Tree::Array(
                ad.tracking.map_values(|t: TrackingView| tracking_json(t)),
            )
        }),
{
    reveal_strlit("type");
    reveal_strlit("start");
    reveal_strlit("duration");
    reveal_strlit("identifiers");
    reveal_strlit("tracking");
    assert("type"@.len() == 4);
    assert("start"@.len() == 5);
    assert("duration"@.len() == 8);
    assert("identifiers"@.len() == 11);
    assert("tracking"@.len() == 8);
    assert("duration"@[0] != "tracking"@[0]);
    let members = slot_payload(ad, start)->Object_0;
    lemma_lookup(members, "type"@, 0);
    lemma_lookup(members, "start"@, 1);
    lemma_lookup(members, "duration"@, 2);
    lemma_lookup(members, "identifiers"@, 3);
    lemma_lookup(members, "tracking"@, 4);
}

/// Whether an asset tells of an identifier of a creative: its registry and its
/// value.
pub open spec fn tells_identifier(t: Tree, id: (Seq<char>, Seq<char>)) -> bool {
    under(t, "scheme"@) == Tree::Text(id.0) && under(t, "value"@) == Tree::Text(id.1)
}

/// Whether an asset tells of an event: its name, its offset where it has one,
/// and its URLs, in order.
pub open spec fn tells_event(
    t: Tree,
    event: Seq<char>,
    offset: Option<Seq<char>>,
    urls: Seq<Seq<char>>,
) -> bool {
    &&& under(t, "type"@) == Tree::Text(event)
    &&& under(t, "offset"@) == match offset {
        Some(text) => Tree::Text(text),
        None => Tree::Null,
    }
    &&& under(t, "urls"@) is Array
    &&& under(t, "urls"@)->Array_0.len() == urls.len()
    &&& forall|i: int|
        0 <= i < urls.len() ==> #[trigger] under(t, "urls"@)->Array_0[i] == Tree::Text(urls[i])
}

proof fn lemma_identifier(id: (Seq<char>, Seq<char>))
    ensures
        tells_identifier(identifier_json(id), id),
{
    reveal_strlit("scheme");
    reveal_strlit("value");
    assert("scheme"@.len() == 6);
    assert("value"@.len() == 5);
    let members = identifier_json(id)->Object_0;
    lemma_lookup(members, "scheme"@, 0);
    lemma_lookup(members, "value"@, 1);
}

proof fn lemma_event(t: TrackingView)
    ensures
        tells_event(tracking_json(t), t.event, t.offset, t.urls),
{
    reveal_strlit("type");
    reveal_strlit("offset");
    reveal_strlit("urls");
    assert("type"@.len() == 4);
    assert("offset"@.len() == 6);
    assert("urls"@.len() == 4);
    assert("type"@[0] != "urls"@[0]);
    let members = tracking_json(t)->Object_0;
    lemma_lookup(members, "type"@, 0);
    if t.offset is Some {
        lemma_lookup(members, "offset"@, 1);
        lemma_lookup(members, "urls"@, 2);
    } else {
        lemma_lookup(members, "urls"@, 1);
        reveal_with_fuel(lookup, 3);
        assert(members.skip(1)[0] == members[1]);
        assert(members.skip(1).skip(1).len() == 0);
    }
}

/// Whether an asset of a list is told as one of `seconds` seconds at `uri` that
/// starts at `start`, with the identifiers and the number of events given.
pub open spec fn tells_asset(
    asset: Tree,
    uri: Seq<char>,
    seconds: nat,
    start: nat,
    ids: Seq<(Seq<char>, Seq<char>)>,
    events: nat,
) -> bool {
    let signal = under(asset, "X-AD-CREATIVE-SIGNALING"@);
    &&& under(asset, "URI"@) == Tree::Text(uri)
    &&& under(asset, "DURATION"@) == Tree::Number(seconds)
    &&& under(signal, "version"@) == Tree::Number(2)
    &&& under(signal, "type"@) == Tree::Text("slot"@)
    &&& under(payload(asset), "type"@) == Tree::Text("linear"@)
    &&& under(payload(asset), "start"@) == Tree::Number(start)
    &&& under(payload(asset), "duration"@) == Tree::Number(seconds)
    &&& under(payload(asset), "identifiers"@) is Array
    &&& under(payload(asset), "identifiers"@)->Array_0.len() == ids.len()
    &&& forall|i: int|
        0 <= i < ids.len() ==> tells_identifier(
            #[trigger] under(payload(asset), "identifiers"@)->Array_0[i],
            ids[i],
        )
    &&& under(payload(asset), "tracking"@) is Array
    &&& under(payload(asset), "tracking"@)->Array_0.len() == events
}

proof fn lemma_asset(url: Seq<char>, ad: AdView, start: nat)
    ensures
        ({
            let asset = ad_asset_json(url, ad, start);
            &&& tells_asset(
                asset,
                url,
                ad.duration as nat,
                start,
                ad.universal_ad_ids,
                ad.tracking.len(),
            )
            &&& forall|i: int|
                0 <= i < ad.tracking.len() ==> tells_event(
                    #[trigger] under(payload(asset), "tracking"@)->Array_0[i],
                    ad.tracking[i].event,
                    ad.tracking[i].offset,
                    ad.tracking[i].urls,
                )
        }),
{
    reveal_strlit("URI");
    reveal_strlit("DURATION");
    reveal_strlit("X-AD-CREATIVE-SIGNALING");
    assert("URI"@.len() == 3);
    assert("DURATION"@.len() == 8);
    assert("X-AD-CREATIVE-SIGNALING"@.len() == 23);
    let asset = ad_asset_json(url, ad, start);
    let members = asset->Object_0;
    lemma_lookup(members, "URI"@, 0);
    lemma_lookup(members, "DURATION"@, 1);
    lemma_lookup(members, "X-AD-CREATIVE-SIGNALING"@, 2);
    lemma_signaling("slot"@, slot_payload(ad, start));
    lemma_payload(ad, start);
    assert(payload(asset) == slot_payload(ad, start));
    assert forall|i: int| 0 <= i < ad.universal_ad_ids.len() implies tells_identifier(
        #[trigger] under(payload(asset), "identifiers"@)->Array_0[i],
        ad.universal_ad_ids[i],
    ) by {
        lemma_identifier(ad.universal_ad_ids[i]);
    }
    assert forall|i: int| 0 <= i < ad.tracking.len() implies tells_event(
        #[trigger] under(payload(asset), "tracking"@)->Array_0[i],
        ad.tracking[i].event,
        ad.tracking[i].offset,
        ad.tracking[i].urls,
    ) by {
        lemma_event(ad.tracking[i]);
    }
}

/// How long a creative lasts, in seconds; one without a length for no time.
pub open spec fn lasts(c: CreativeView) -> nat {
    match c.linear {
        Some(linear) => match linear.duration {
            Some(n) => n as nat,
            None => 0,
        },
        None => 0,
    }
}

/// Whether a creative has a media file.
pub open spec fn has_file(c: CreativeView) -> bool {
    c.linear matches Some(linear) && (linear.media_files matches Some(files) && files.len() > 0)
}

/// The first media file of a creative.
pub open spec fn file(c: CreativeView) -> Seq<char> {
    c.linear->0.media_files->0[0]
}

/// The events of a creative: their names, offsets and URLs.
pub open spec fn events(c: CreativeView) -> Seq<(Seq<char>, Option<Seq<char>>, Seq<char>)> {
    match c.linear->0.tracking_events {
        Some(list) => list,
        None => seq![],
    }
}

/// How long the ad of a raw creative lasts: a test asset takes its place.
pub open spec fn raw_lasts(c: CreativeView, test_asset: Option<TestAsset>) -> nat {
    match test_asset {
        Some(asset) => asset.duration as nat,
        None => lasts(c),
    }
}

/// Whether `sums` says when each ad of a list starts, in seconds after the
/// first, and at its end when the last one ends: the raw ones come first.
pub open spec fn is_schedule(
    raw: Seq<CreativeView>,
    transcoded: Seq<CreativeView>,
    test_asset: Option<TestAsset>,
    sums: Seq<nat>,
) -> bool {
    &&& sums.len() == raw.len() + transcoded.len() + 1
    &&& sums[0] == 0
    &&& forall|k: int, n: int|
        0 <= k < raw.len() && n == k + 1 ==> #[trigger] sums[n] == #[trigger] sums[k] + raw_lasts(
            raw[k],
            test_asset,
        )
    &&& forall|k: int, n: int|
        raw.len() <= k < raw.len() + transcoded.len() && n == k + 1 ==> #[trigger] sums[n]
            == #[trigger] sums[k] + lasts(transcoded[k - raw.len()])
}

proof fn lemma_raw_sums(
    raw: Seq<CreativeView>,
    transcoded: Seq<CreativeView>,
    test_asset: Option<TestAsset>,
    stamps: Seq<(u128, Timestamp)>,
    sums: Seq<nat>,
    k: int,
)
    requires
        is_schedule(raw, transcoded, test_asset, sums),
        forall|i: int| 0 <= i < raw.len() ==> has_file(#[trigger] raw[i]),
        0 <= k <= raw.len(),
    ensures
        total_duration(raw_ads(raw, test_asset, stamps).take(k)) == sums[k],
        raw_duration(raw.take(k), test_asset) == sums[k],
    decreases k,
{
    let ads = raw_ads(raw, test_asset, stamps);
    if k > 0 {
        lemma_raw_sums(raw, transcoded, test_asset, stamps, sums, k - 1);
        assert(ads.take(k).drop_last() == ads.take(k - 1));
        assert(raw.take(k).drop_last() == raw.take(k - 1));
        assert(has_file(raw[k - 1]));
        assert(sums[k] == sums[k - 1] + raw_lasts(raw[k - 1], test_asset));
    }
}

proof fn lemma_transcoded_sums(
    raw: Seq<CreativeView>,
    transcoded: Seq<CreativeView>,
    test_asset: Option<TestAsset>,
    stamps: Seq<(u128, Timestamp)>,
    sums: Seq<nat>,
    k: int,
)
    requires
        is_schedule(raw, transcoded, test_asset, sums),
        forall|i: int| 0 <= i < transcoded.len() ==> has_file(#[trigger] transcoded[i]),
        0 <= k <= transcoded.len(),
    ensures
        sums[raw.len() as int] + total_duration(
            transcoded_ads(transcoded, stamps, raw.len() as int).take(k),
        ) == sums[raw.len() + k],
        sums[raw.len() as int] + raw_duration(transcoded.take(k), None) == sums[raw.len() + k],
    decreases k,
{
    let ads = transcoded_ads(transcoded, stamps, raw.len() as int);
    if k > 0 {
        lemma_transcoded_sums(raw, transcoded, test_asset, stamps, sums, k - 1);
        assert(ads.take(k).drop_last() == ads.take(k - 1));
        assert(transcoded.take(k).drop_last() == transcoded.take(k - 1));
        assert(has_file(transcoded[k - 1]));
        assert(sums[raw.len() + k] == sums[raw.len() + k - 1] + lasts(transcoded[k - 1]));
    }
}

/// Where a player asks for a raw ad that starts at `start`: at the URL of its
/// request, with the break, the user, the start and the ad's identifier.
pub open spec fn asked_again_at(
    req_url: Seq<char>,
    interstitial_id: Seq<char>,
    user_id: Seq<char>,
    start: nat,
    id: u128,
) -> Seq<char> {
    url_with_pairs(
        req_url,
        seq![
            ("_HLS_interstitial_id"@, interstitial_id),
            ("_HLS_primary_id"@, user_id),
            ("_HLS_start_offset"@, decimal(start)),
            ("_HLS_follow_id"@, id_text(id)),
        ],
    )->0
}

/// An asset list tells of every ad in turn, the raw ones first. A transcoded
/// ad is found at its own media file and starts where the ads before it end. A
/// raw ad is asked for again, from where the ads before it end, and its start
/// is told as its end; where there is a test asset it is found at that asset
/// instead. The pod lasts as long as all ads together.
#[verifier::rlimit(40)]
pub proof fn an_asset_list_tells_of_every_ad(
    raw: Seq<CreativeView>,
    transcoded: Seq<CreativeView>,
    req_url: Seq<char>,
    interstitial_id: Seq<char>,
    user_id: Seq<char>,
    test_asset: Option<TestAsset>,
    stamps: Seq<(u128, Timestamp)>,
    sums: Seq<nat>,
)
    requires
        is_schedule(raw, transcoded, test_asset, sums),
        forall|i: int| 0 <= i < raw.len() ==> has_file(#[trigger] raw[i]),
        forall|i: int| 0 <= i < transcoded.len() ==> has_file(#[trigger] transcoded[i]),
    ensures
        ({
            let list = assets_json(
                raw,
                transcoded,
                req_url,
                interstitial_id,
                user_id,
                test_asset,
                stamps,
            );
            &&& under(list, "ASSETS"@) is Array
            &&& assets_in(list).len() == raw.len() + transcoded.len()
            &&& forall|k: int|
                0 <= k < raw.len() ==> tells_asset(
                    #[trigger] assets_in(list)[k],
                    match test_asset {
                        Some(asset) => asset.url@,
                        None => asked_again_at(
                            req_url,
                            interstitial_id,
                            user_id,
                            sums[k],
                            stamps[k].0,
                        ),
                    },
                    raw_lasts(raw[k], test_asset),
                    sums[k + 1],
                    raw[k].universal_ad_ids,
                    events(raw[k]).len(),
                )
            &&& forall|k: int|
                raw.len() <= k < raw.len() + transcoded.len() ==> tells_asset(
                    #[trigger] assets_in(list)[k],
                    file(transcoded[k - raw.len()]),
                    lasts(transcoded[k - raw.len()]),
                    sums[k],
                    transcoded[k - raw.len()].universal_ad_ids,
                    events(transcoded[k - raw.len()]).len(),
                )
            &&& under(under(list, "X-AD-CREATIVE-SIGNALING"@), "version"@) == Tree::Number(2)
            &&& under(under(list, "X-AD-CREATIVE-SIGNALING"@), "type"@) == Tree::Text("pod"@)
            &&& under(payload(list), "duration"@) == Tree::Number(sums.last())
        }),
{
    let list = assets_json(
        raw,
        transcoded,
        req_url,
        interstitial_id,
        user_id,
        test_asset,
        stamps,
    );
    let first = raw_ads(raw, test_asset, stamps);
    let second = transcoded_ads(transcoded, stamps, raw.len() as int);
    let n = raw.len() as int;
    reveal_strlit("ASSETS");
    reveal_strlit("X-AD-CREATIVE-SIGNALING");
    assert("ASSETS"@.len() == 6);
    assert("X-AD-CREATIVE-SIGNALING"@.len() == 23);
    let members = list->Object_0;
    lemma_lookup(members, "ASSETS"@, 0);
    lemma_lookup(members, "X-AD-CREATIVE-SIGNALING"@, 1);
    let inner = Tree::Object(
        seq![("duration"@, Tree::Number(total_duration(first) + total_duration(second)))],
    );
    lemma_signaling("pod"@, inner);
    lemma_lookup(inner->Object_0, "duration"@, 0);
    lemma_raw_sums(raw, transcoded, test_asset, stamps, sums, n);
    assert(first.take(n) == first);
    lemma_transcoded_sums(raw, transcoded, test_asset, stamps, sums, transcoded.len() as int);
    assert(second.take(transcoded.len() as int) == second);
    let assets = assets_in(list);
    assert forall|k: int| 0 <= k < n implies tells_asset(
        #[trigger] assets[k],
        match test_asset {
            Some(asset) => asset.url@,
            None => asked_again_at(req_url, interstitial_id, user_id, sums[k], stamps[k].0),
        },
        raw_lasts(raw[k], test_asset),
        sums[k + 1],
        raw[k].universal_ad_ids,
        events(raw[k]).len(),
    ) by {
        assert(has_file(raw[k]));
        lemma_raw_sums(raw, transcoded, test_asset, stamps, sums, k);
        lemma_raw_sums(raw, transcoded, test_asset, stamps, sums, k + 1);
        let url = match test_asset {
            Some(asset) => asset.url@,
            None => asked_again_at(req_url, interstitial_id, user_id, sums[k], stamps[k].0),
        };
        assert(assets[k] == ad_asset_json(url, first[k], sums[k + 1]));
        lemma_asset(url, first[k], sums[k + 1]);
    }
    assert forall|k: int| n <= k < n + transcoded.len() implies tells_asset(
        #[trigger] assets[k],
        file(transcoded[k - n]),
        lasts(transcoded[k - n]),
        sums[k],
        transcoded[k - n].universal_ad_ids,
        events(transcoded[k - n]).len(),
    ) by {
        assert(has_file(transcoded[k - n]));
        lemma_transcoded_sums(raw, transcoded, test_asset, stamps, sums, k - n);
        assert(assets[k] == ad_asset_json(file(transcoded[k - n]), second[k - n], sums[k]));
        lemma_asset(file(transcoded[k - n]), second[k - n], sums[k]);
    }
}

/// Each transcoded asset starts where the one before it ends, by the starts
/// and lengths that the list itself tells, and the last one ends with the pod.
pub proof fn transcoded_assets_follow_each_other(
    raw: Seq<CreativeView>,
    transcoded: Seq<CreativeView>,
    req_url: Seq<char>,
    interstitial_id: Seq<char>,
    user_id: Seq<char>,
    test_asset: Option<TestAsset>,
    stamps: Seq<(u128, Timestamp)>,
    k: int,
)
    requires
        forall|i: int| 0 <= i < raw.len() ==> has_file(#[trigger] raw[i]),
        forall|i: int| 0 <= i < transcoded.len() ==> has_file(#[trigger] transcoded[i]),
        raw.len() <= k < raw.len() + transcoded.len(),
    ensures
        ({
            let list = assets_json(
                raw,
                transcoded,
                req_url,
                interstitial_id,
                user_id,
                test_asset,
                stamps,
            );
            let assets = assets_in(list);
            let end = under(payload(assets[k]), "start"@)->Number_0 + under(
                assets[k],
                "DURATION"@,
            )->Number_0;
            &&& k == 0 ==> under(payload(assets[k]), "start"@) == Tree::Number(0)
            &&& k + 1 < assets.len() ==> under(payload(assets[k + 1]), "start"@) == Tree::Number(
                end,
            )
            &&& k + 1 == assets.len() ==> under(payload(list), "duration"@) == Tree::Number(end)
        }),
{
    let sums = schedule(raw, transcoded, test_asset);
    lemma_schedule(raw, transcoded, test_asset);
    an_asset_list_tells_of_every_ad(
        raw,
        transcoded,
        req_url,
        interstitial_id,
        user_id,
        test_asset,
        stamps,
        sums,
    );
    let list = assets_json(
        raw,
        transcoded,
        req_url,
        interstitial_id,
        user_id,
        test_asset,
        stamps,
    );
    let assets = assets_in(list);
    assert(tells_asset(
        assets[k],
        file(transcoded[k - raw.len()]),
        lasts(transcoded[k - raw.len()]),
        sums[k],
        transcoded[k - raw.len()].universal_ad_ids,
        events(transcoded[k - raw.len()]).len(),
    ));
    assert(sums[k + 1] == sums[k] + lasts(transcoded[k - raw.len()]));
    if k + 1 < assets.len() {
        let next = k + 1 - raw.len();
        assert(tells_asset(
            assets[k + 1],
            file(transcoded[next]),
            lasts(transcoded[next]),
            sums[k + 1],
            transcoded[next].universal_ad_ids,
            events(transcoded[next]).len(),
        ));
    }
}

/// When the ads of a list start.
pub open spec fn schedule(
    raw: Seq<CreativeView>,
    transcoded: Seq<CreativeView>,
    test_asset: Option<TestAsset>,
) -> Seq<nat> {
    Seq::new(
        raw.len() + transcoded.len() + 1,
        |k: int| schedule_at(raw, transcoded, test_asset, k),
    )
}

pub open spec fn schedule_at(
    raw: Seq<CreativeView>,
    transcoded: Seq<CreativeView>,
    test_asset: Option<TestAsset>,
    k: int,
) -> nat
    decreases k,
{
    if k <= 0 {
        0
    } else {
        schedule_at(raw, transcoded, test_asset, k - 1) + if k - 1 < raw.len() {
            raw_lasts(raw[k - 1], test_asset)
        } else {
            lasts(transcoded[k - 1 - raw.len()])
        }
    }
}

proof fn lemma_schedule(
    raw: Seq<CreativeView>,
    transcoded: Seq<CreativeView>,
    test_asset: Option<TestAsset>,
)
    ensures
        is_schedule(raw, transcoded, test_asset, schedule(raw, transcoded, test_asset)),
{
}

/// The ad of a creative reports the events of the creative, in order, each at
/// its URL; where a test asset takes its place, at the same URL over TLS.
pub proof fn events_are_reported(
    c: CreativeView,
    id: u128,
    requested_at: Timestamp,
    asset: TestAsset,
    url: Seq<char>,
    start: nat,
    i: int,
)
    requires
        has_file(c),
        0 <= i < events(c).len(),
    ensures
        tells_event(
            under(
                payload(ad_asset_json(url, ad_of(c, id, requested_at), start)),
                "tracking"@,
            )->Array_0[i],
            events(c)[i].0,
            events(c)[i].1,
            seq![events(c)[i].2],
        ),
        tells_event(
            under(
                payload(
                    ad_asset_json(url, with_test_asset(ad_of(c, id, requested_at), asset), start),
                ),
                "tracking"@,
            )->Array_0[i],
            events(c)[i].0,
            events(c)[i].1,
            seq![secured(events(c)[i].2)],
        ),
{
    let ad = ad_of(c, id, requested_at);
    let replaced_ad = with_test_asset(ad, asset);
    lemma_asset(url, ad, start);
    lemma_asset(url, replaced_ad, start);
    assert(ad.tracking[i].urls =~= seq![events(c)[i].2]);
    assert(replaced_ad.tracking[i].urls =~= seq![secured(events(c)[i].2)]);
    assert(under(payload(ad_asset_json(url, ad, start)), "tracking"@)->Array_0.len()
        == ad.tracking.len());
    let a = under(payload(ad_asset_json(url, ad, start)), "tracking"@)->Array_0[i];
    let b = under(payload(ad_asset_json(url, replaced_ad, start)), "tracking"@)->Array_0[i];
    assert(tells_event(a, ad.tracking[i].event, ad.tracking[i].offset, ad.tracking[i].urls));
    assert(tells_event(
        b,
        replaced_ad.tracking[i].event,
        replaced_ad.tracking[i].offset,
        replaced_ad.tracking[i].urls,
    ));
}

proof fn lemma_no_part_is_kept(s: Seq<char>, from: Seq<char>, to: Seq<char>)
    requires
        !has_part(s, from),
    ensures
        replaced(s, from, to) == s,
    decreases s.len(),
{
    if from.len() > 0 && s.len() >= from.len() {
        assert(!occurs_at(s, from, 0));
        let rest = s.skip(1);
        assert forall|at: int| !occurs_at(rest, from, at) by {
            if occurs_at(rest, from, at) {
                assert(s.subrange(at + 1, at + 1 + from.len()) =~= rest.subrange(
                    at,
                    at + from.len(),
                ));
                assert(occurs_at(s, from, at + 1));
            }
        }
        lemma_no_part_is_kept(rest, from, to);
        assert(seq![s[0]] + rest =~= s);
    }
}

/// A URL that starts with `http://` is asked for over TLS, at the same place;
/// any other URL is kept.
pub proof fn urls_are_secured(rest: Seq<char>, other: Seq<char>)
    requires
        !has_part(rest, "http://"@),
        !has_prefix(other, "http://"@),
    ensures
        secured("http://"@ + rest) == "https://"@ + rest,
        secured(other) == other,
{
    reveal_strlit("http://");
    assert("http://"@.len() == 7);
    let url = "http://"@ + rest;
    assert(url.subrange(0, 7) =~= "http://"@);
    assert(url.skip(7) =~= rest);
    lemma_no_part_is_kept(rest, "http://"@, "https://"@);
}

/// A creative with a media file is played, and in one way only: as it is where
/// the file is a playlist, else wrapped in one. The order of the creatives is
/// kept.
pub proof fn every_creative_with_a_file_is_played(all: Seq<CreativeView>, c: CreativeView)
    ensures
        raw_creatives(all.push(c)) == (if has_file(c) && !has_part(file(c), ".m3u8"@) {
            raw_creatives(all).push(c)
        } else {
            raw_creatives(all)
        }),
        transcoded_creatives(all.push(c)) == (if has_file(c) && has_part(file(c), ".m3u8"@) {
            transcoded_creatives(all).push(c)
        } else {
            transcoded_creatives(all)
        }),
        raw_creatives(seq![]).len() == 0,
        transcoded_creatives(seq![]).len() == 0,
{
    reveal(Seq::filter);
    assert(all.push(c).drop_last() == all);
    assert(is_raw(c) == (has_file(c) && !has_part(file(c), ".m3u8"@)));
    assert(is_transcoded(c) == (has_file(c) && has_part(file(c), ".m3u8"@)));
}

/// The creatives of a document are those of its ads, in order; an ad that
/// refers to another document has none.
pub proof fn creatives_come_in_order(
    ads: Seq<Option<Seq<CreativeView>>>,
    more: Seq<CreativeView>,
    xml: Seq<char>,
)
    ensures
        all_creatives(ads.push(Some(more))) == all_creatives(ads) + more,
        all_creatives(ads.push(None)) == all_creatives(ads),
        all_creatives(seq![]).len() == 0,
        short_times(xml) && ads_of(xml) == Some(ads) ==> creatives_of(xml) == all_creatives(ads),
        ads_of(xml) is None ==> creatives_of(xml).len() == 0,
{
    assert(ads.push(Some(more)).drop_last() == ads);
    assert(ads.push(None).drop_last() == ads);
    assert(all_creatives(ads) + Seq::<CreativeView>::empty() =~= all_creatives(ads));
}

proof fn lemma_raw_has_file(all: Seq<CreativeView>)
    ensures
        forall|i: int| 0 <= i < raw_creatives(all).len() ==> has_file(#[trigger] raw_creatives(all)[i]),
        forall|i: int|
            0 <= i < transcoded_creatives(all).len() ==> has_file(
                #[trigger] transcoded_creatives(all)[i],
            ),
    decreases all.len(),
{
    if all.len() > 0 {
        let shorter = all.drop_last();
        lemma_raw_has_file(shorter);
        every_creative_with_a_file_is_played(shorter, all.last());
        assert(shorter.push(all.last()) =~= all);
    } else {
        assert(all =~= seq![]);
        every_creative_with_a_file_is_played(seq![], arbitrary());
    }
}

/// An asset list is made exactly where the request can be asked again and the
/// ads together last no more seconds than can be counted in 64 bits. A URL can
/// be asked again where its address can be counted, and, where it has a
/// fragment, the place of that behind the longest query.
pub proof fn when_a_list_is_made(
    all: Seq<CreativeView>,
    req_url: Seq<char>,
    interstitial_id: Seq<char>,
    user_id: Seq<char>,
    test_asset: Option<TestAsset>,
    sums: Seq<nat>,
)
    requires
        is_schedule(raw_creatives(all), transcoded_creatives(all), test_asset, sums),
    ensures
        can_wrap(all, req_url, interstitial_id, user_id, test_asset) <==> {
            &&& sums.last() <= u64::MAX
            &&& url_of(req_url) matches Some(parts)
            &&& before_query(parts.text).len() <= 0xffff_ffff
            &&& has_fragment(parts.text) ==> before_query(parts.text).len() + form_bytes(
                interstitial_id,
            ) + form_bytes(user_id) + 130 <= 0xffff_ffff
        },
{
    let raw = raw_creatives(all);
    let transcoded = transcoded_creatives(all);
    lemma_raw_has_file(all);
    lemma_raw_sums(raw, transcoded, test_asset, seq![], sums, raw.len() as int);
    lemma_transcoded_sums(raw, transcoded, test_asset, seq![], sums, transcoded.len() as int);
    assert(raw.take(raw.len() as int) == raw);
    assert(transcoded.take(transcoded.len() as int) == transcoded);
}

proof fn lemma_kept(map: Map<u128, KeptAdView>, ads: Seq<AdView>, id: u128)
    ensures
        (forall|k: int| 0 <= k < ads.len() ==> (#[trigger] ads[k]).ad_id != id) ==> (with_kept(
            map,
            ads,
        ).contains_key(id) <==> map.contains_key(id)) && (map.contains_key(id) ==> with_kept(
            map,
            ads,
        )[id] == map[id]),
        forall|k: int|
            0 <= k < ads.len() && (#[trigger] ads[k]).ad_id == id && (forall|j: int|
                k < j < ads.len() ==> (#[trigger] ads[j]).ad_id != id) ==> with_kept(
                map,
                ads,
            ).contains_key(id) && with_kept(map, ads)[id] == kept(ads[k]),
    decreases ads.len(),
{
    if ads.len() > 0 {
        let shorter = ads.drop_last();
        lemma_kept(map, shorter, id);
        assert forall|k: int|
            0 <= k < ads.len() && (#[trigger] ads[k]).ad_id == id && (forall|j: int|
                k < j < ads.len() ==> (#[trigger] ads[j]).ad_id != id) implies with_kept(
            map,
            ads,
        ).contains_key(id) && with_kept(map, ads)[id] == kept(ads[k]) by {
            if k < ads.len() - 1 {
                assert(shorter[k] == ads[k]);
                assert(ads[ads.len() - 1].ad_id != id);
                assert forall|j: int| k < j < shorter.len() implies (#[trigger] shorter[j]).ad_id
                    != id by {
                    assert(shorter[j] == ads[j]);
                }
            }
        }
        if forall|k: int| 0 <= k < ads.len() ==> (#[trigger] ads[k]).ad_id != id {
            assert(ads[ads.len() - 1].ad_id != id);
            assert forall|k: int| 0 <= k < shorter.len() implies (#[trigger] shorter[k]).ad_id
                != id by {
                assert(shorter[k] == ads[k]);
            }
        }
    }
}

/// The playlist that wraps a media file of `seconds` seconds.
pub open spec fn wrapped_file(seconds: nat, url: Seq<char>) -> Seq<char> {
    "#EXTM3U\n#EXT-X-TARGETDURATION:"@ + decimal(seconds) + "\n#EXTINF:"@ + decimal(seconds)
        + ",\n"@ + url + "\n#EXT-X-ENDLIST\n"@
}

/// An ad that is kept is given out under its identifier, in whatever spelling,
/// as a playlist of its media file and its length; under any other identifier
/// there is nothing.
pub proof fn a_kept_ad_is_given_out(
    ads: Map<u128, KeptAdView>,
    linear_id: Seq<char>,
    id: u128,
)
    requires
        read_id(linear_id) == Some(id),
    ensures
        kept_playlist(ads, linear_id) == (if ads.contains_key(id) {
            Some(wrapped_file(ads[id].duration as nat, ads[id].url))
        } else {
            None
        }),
{
}

/// When a list is made, each raw ad is kept under an identifier of its own,
/// with its length and its media file, and can be asked for; every ad that was
/// kept before stays as it was; and nothing else is kept. A test asset is never
/// kept.
#[verifier::rlimit(40)]
pub proof fn raw_ads_are_kept(
    all: Seq<CreativeView>,
    req_url: Seq<char>,
    interstitial_id: Seq<char>,
    user_id: Seq<char>,
    test_asset: Option<TestAsset>,
    ads: Map<u128, KeptAdView>,
    ads_after: Map<u128, KeptAdView>,
    text: Seq<char>,
)
    requires
        wraps(all, req_url, interstitial_id, user_id, test_asset, ads, ads_after, text),
    ensures
        test_asset is Some ==> ads_after == ads,
        forall|id: u128| #[trigger]
            ads.contains_key(id) ==> ads_after.contains_key(id) && ads_after[id] == ads[id],
        test_asset is None ==> exists|ids: Seq<u128>|
            {
                &&& #[trigger] ids.len() == raw_creatives(all).len()
                &&& forall|i: int, k: int|
                    0 <= i < k < ids.len() ==> #[trigger] ids[i] != #[trigger] ids[k]
                &&& forall|k: int|
                    0 <= k < ids.len() ==> {
                        &&& #[trigger] ids[k] != 0
                        &&& !ads.contains_key(ids[k])
                        &&& ads_after.contains_key(ids[k])
                        &&& ads_after[ids[k]].duration == lasts(raw_creatives(all)[k])
                        &&& ads_after[ids[k]].url == file(raw_creatives(all)[k])
                        &&& kept_playlist(ads_after, id_text(ids[k])) == Some(
                            wrapped_file(
                                lasts(raw_creatives(all)[k]),
                                file(raw_creatives(all)[k]),
                            ),
                        )
                    }
                &&& forall|id: u128| #[trigger]
                    ads_after.contains_key(id) ==> ads.contains_key(id) || ids.contains(id)
            },
{
    let stamps = choose|stamps: Seq<(u128, Timestamp)>|
        has_ids(stamps) && has_free_ids(stamps, ads) && #[trigger] is_wrapped(
            all,
            req_url,
            interstitial_id,
            user_id,
            test_asset,
            ads,
            ads_after,
            text,
            stamps,
        );
    let raw = raw_creatives(all);
    let told = raw_ads(raw, None, stamps);
    lemma_raw_has_file(all);
    if test_asset is None {
        let ids = Seq::new(raw.len(), |k: int| stamps[k].0);
        assert forall|id: u128| #[trigger] ads.contains_key(id) implies ads_after.contains_key(id)
            && ads_after[id] == ads[id] by {
            assert forall|k: int| 0 <= k < told.len() implies (#[trigger] told[k]).ad_id != id by {
                assert(!ads.contains_key(stamps[k].0));
            }
            lemma_kept(ads, told, id);
        }
        assert forall|k: int| 0 <= k < ids.len() implies {
            &&& #[trigger] ids[k] != 0
            &&& !ads.contains_key(ids[k])
            &&& ads_after.contains_key(ids[k])
            &&& ads_after[ids[k]].duration == lasts(raw[k])
            &&& ads_after[ids[k]].url == file(raw[k])
            &&& kept_playlist(ads_after, id_text(ids[k])) == Some(
                wrapped_file(lasts(raw[k]), file(raw[k])),
            )
        } by {
            assert(stamps[k].0 != 0);
            assert(!ads.contains_key(stamps[k].0));
            assert forall|j: int| k < j < told.len() implies (#[trigger] told[j]).ad_id
                != ids[k] by {
                assert(stamps[k].0 != stamps[j].0);
            }
            lemma_kept(ads, told, ids[k]);
            assert(told[k].ad_id == ids[k]);
            assert(has_file(raw[k]));
            assert(read_id(id_text(stamps[k].0)) == Some(stamps[k].0));
            a_kept_ad_is_given_out(ads_after, id_text(ids[k]), ids[k]);
        }
        assert forall|id: u128| #[trigger] ads_after.contains_key(id) implies ads.contains_key(id)
            || ids.contains(id) by {
            if !ids.contains(id) {
                assert forall|k: int| 0 <= k < told.len() implies (
                #[trigger] told[k]).ad_id != id by {
                    assert(ids[k] == stamps[k].0);
                }
                lemma_kept(ads, told, id);
            }
        }
        assert forall|i: int, k: int| 0 <= i < k < ids.len() implies #[trigger] ids[i]
            != #[trigger] ids[k] by {
            assert(stamps[i].0 != stamps[k].0);
        }
    }
}

/// The text of a list is that of the ads in it. Each raw ad that it tells of is
/// kept under the identifier with which it tells of it, and was asked for at the
/// point in time that is kept with it.
#[verifier::rlimit(40)]
pub proof fn a_list_is_the_text_of_its_ads(
    all: Seq<CreativeView>,
    req_url: Seq<char>,
    interstitial_id: Seq<char>,
    user_id: Seq<char>,
    test_asset: Option<TestAsset>,
    ads: Map<u128, KeptAdView>,
    ads_after: Map<u128, KeptAdView>,
    text: Seq<char>,
)
    requires
        wraps(all, req_url, interstitial_id, user_id, test_asset, ads, ads_after, text),
    ensures
        exists|stamps: Seq<(u128, Timestamp)>|
            {
                &&& text == pretty_text(
                    #[trigger] assets_json(
                        raw_creatives(all),
                        transcoded_creatives(all),
                        req_url,
                        interstitial_id,
                        user_id,
                        test_asset,
                        stamps,
                    ),
                    2,
                )
                &&& test_asset is None ==> forall|k: int|
                    0 <= k < raw_creatives(all).len() ==> {
                        &&& ads_after.contains_key((#[trigger] stamps[k]).0)
                        &&& ads_after[stamps[k].0].requested_at == stamps[k].1
                        &&& ads_after[stamps[k].0].duration == lasts(raw_creatives(all)[k])
                        &&& ads_after[stamps[k].0].url == file(raw_creatives(all)[k])
                    }
            },
{
    let stamps = choose|stamps: Seq<(u128, Timestamp)>|
        has_ids(stamps) && has_free_ids(stamps, ads) && #[trigger] is_wrapped(
            all,
            req_url,
            interstitial_id,
            user_id,
            test_asset,
            ads,
            ads_after,
            text,
            stamps,
        );
    let raw = raw_creatives(all);
    let told = raw_ads(raw, None, stamps);
    lemma_raw_has_file(all);
    if test_asset is None {
        assert forall|k: int| 0 <= k < raw.len() implies {
            &&& ads_after.contains_key((#[trigger] stamps[k]).0)
            &&& ads_after[stamps[k].0].requested_at == stamps[k].1
            &&& ads_after[stamps[k].0].duration == lasts(raw[k])
            &&& ads_after[stamps[k].0].url == file(raw[k])
        } by {
            assert forall|j: int| k < j < told.len() implies (#[trigger] told[j]).ad_id
                != stamps[k].0 by {
                assert(stamps[k].0 != stamps[j].0);
            }
            lemma_kept(ads, told, stamps[k].0);
            assert(told[k].ad_id == stamps[k].0);
            assert(has_file(raw[k]));
        }
    }
}

/// Where a test asset is served in place of all ads, the list has one asset, at
/// the test asset's URL, which starts at once and lasts as long as the pod.
pub proof fn the_test_asset_is_the_whole_list(asset: TestAsset)
    ensures
        ({
            let list = test_asset_list(asset);
            &&& assets_in(list).len() == 1
            &&& tells_asset(
                assets_in(list)[0],
                asset.url@,
                asset.duration as nat,
                0,
                seq![],
                0,
            )
            &&& under(payload(list), "duration"@) == Tree::Number(asset.duration as nat)
        }),
{
    let list = test_asset_list(asset);
    reveal_strlit("ASSETS");
    reveal_strlit("X-AD-CREATIVE-SIGNALING");
    assert("ASSETS"@.len() == 6);
    assert("X-AD-CREATIVE-SIGNALING"@.len() == 23);
    let members = list->Object_0;
    lemma_lookup(members, "ASSETS"@, 0);
    lemma_lookup(members, "X-AD-CREATIVE-SIGNALING"@, 1);
    let inner = Tree::Object(seq![("duration"@, Tree::Number(asset.duration as nat))]);
    lemma_signaling("pod"@, inner);
    lemma_lookup(inner->Object_0, "duration"@, 0);
    let ad = AdView {
        ad_id: 0,
        universal_ad_ids: seq![],
        duration: asset.duration,
        url: seq![],
        requested_at: Timestamp { nanos: 0 },
        tracking: seq![],
    };
    lemma_asset(asset.url@, ad, 0);
    assert(assets_in(list)[0] == ad_asset_json(asset.url@, ad, 0));
}

} // verus!
